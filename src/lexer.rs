use vstd::prelude::*;
use vstd::string::StrSliceExecFns;
use vstd::string::StringExecFns;
use crate::token::{lemma_views_push, literal_view, views, Literal, LiteralView, Token, TokenType, TokenView};

verus! {

/// A lexical diagnostic. Scanning records it and goes on.
#[derive(Debug, Clone, Copy, PartialEq, Eq, Structural)]
pub enum LexError {
    /// A character that starts no token, and the line it stands on.
    UnexpectedChar { ch: char, line: usize },
    /// A string literal that reaches the end of input, and the line it starts on.
    UnterminatedString { line: usize },
}

/// Whether `c` has the Unicode `Alphabetic` property.
pub uninterp spec fn alphabetic(c: char) -> bool;

/// Relies on `char::is_alphabetic`: whether `c` has the Unicode `Alphabetic` property.
#[verifier::external_body]
fn is_alphabetic(c: char) -> (r: bool)
    ensures
        r == alphabetic(c),
{
    c.is_alphabetic()
}

pub open spec fn digit(c: char) -> bool {
    '0' <= c && c <= '9'
}

pub open spec fn alpha(c: char) -> bool {
    alphabetic(c) || c == '_'
}

pub open spec fn alnum(c: char) -> bool {
    digit(c) || alpha(c)
}

/// The first position at or after `i` that holds no decimal digit.
pub open spec fn digits_end(src: Seq<char>, i: int) -> int
    decreases src.len() - i,
{
    if 0 <= i < src.len() && digit(src[i]) {
        digits_end(src, i + 1)
    } else {
        i
    }
}

/// The first position at or after `i` that holds no identifier character.
pub open spec fn alnum_end(src: Seq<char>, i: int) -> int
    decreases src.len() - i,
{
    if 0 <= i < src.len() && alnum(src[i]) {
        alnum_end(src, i + 1)
    } else {
        i
    }
}

/// The first position at or after `i` that holds `c`, or the length.
pub open spec fn find_char(src: Seq<char>, i: int, c: char) -> int
    decreases src.len() - i,
{
    if 0 <= i < src.len() && src[i] != c {
        find_char(src, i + 1, c)
    } else {
        i
    }
}

/// How many newline characters `s` holds.
pub open spec fn newlines(s: Seq<char>) -> nat
    decreases s.len(),
{
    if s.len() == 0 {
        0
    } else {
        newlines(s.drop_last()) + if s.last() == '\n' { 1nat } else { 0nat }
    }
}

/// The kind of a token made of `c` alone, for the characters that always
/// form such a token.
pub open spec fn single_kind(c: char) -> Option<TokenType> {
    if c == '(' {
        Some(TokenType::LeftParen)
    } else if c == ')' {
        Some(TokenType::RightParen)
    } else if c == '{' {
        Some(TokenType::LeftBrace)
    } else if c == '}' {
        Some(TokenType::RightBrace)
    } else if c == ',' {
        Some(TokenType::Comma)
    } else if c == '.' {
        Some(TokenType::Dot)
    } else if c == '-' {
        Some(TokenType::Minus)
    } else if c == '+' {
        Some(TokenType::Plus)
    } else if c == ';' {
        Some(TokenType::Semicolon)
    } else if c == '*' {
        Some(TokenType::Star)
    } else {
        None
    }
}

/// For `! = > <`: the kind alone and the kind when followed by `=`.
pub open spec fn pair_kinds(c: char) -> Option<(TokenType, TokenType)> {
    if c == '!' {
        Some((TokenType::Bang, TokenType::BangEqual))
    } else if c == '=' {
        Some((TokenType::Equal, TokenType::EqualEqual))
    } else if c == '>' {
        Some((TokenType::Greater, TokenType::GreaterEqual))
    } else if c == '<' {
        Some((TokenType::Less, TokenType::LessEqual))
    } else {
        None
    }
}

/// The reserved word spelled by `t`, if any.
pub open spec fn keyword_kind(t: Seq<char>) -> Option<TokenType> {
    if t == "and"@ {
        Some(TokenType::And)
    } else if t == "class"@ {
        Some(TokenType::Class)
    } else if t == "else"@ {
        Some(TokenType::Else)
    } else if t == "false"@ {
        Some(TokenType::False)
    } else if t == "fun"@ {
        Some(TokenType::Fun)
    } else if t == "for"@ {
        Some(TokenType::For)
    } else if t == "if"@ {
        Some(TokenType::If)
    } else if t == "nil"@ {
        Some(TokenType::Nil)
    } else if t == "or"@ {
        Some(TokenType::Or)
    } else if t == "print"@ {
        Some(TokenType::Print)
    } else if t == "return"@ {
        Some(TokenType::Return)
    } else if t == "super"@ {
        Some(TokenType::Super)
    } else if t == "this"@ {
        Some(TokenType::This)
    } else if t == "true"@ {
        Some(TokenType::True)
    } else if t == "var"@ {
        Some(TokenType::Var)
    } else if t == "while"@ {
        Some(TokenType::While)
    } else {
        None
    }
}

/// Whether `c` is none of the characters that decide a step by themselves.
pub open spec fn plain(c: char) -> bool {
    &&& single_kind(c).is_none()
    &&& pair_kinds(c).is_none()
    &&& c != '/' && c != ' ' && c != '\r' && c != '\t' && c != '\n' && c != '"'
    &&& !digit(c)
}

/// What one scanning step does from position `s` on line `line`: where it
/// stops, the line it ends on, and the token and diagnostic it records.
pub struct Step {
    pub end: int,
    pub line: int,
    pub token: Option<TokenView>,
    pub error: Option<LexError>,
}

pub open spec fn token_at(src: Seq<char>, s: int, end: int, kind: TokenType, literal: Option<LiteralView>, line: int) -> TokenView {
    TokenView { kind, lexeme: src.subrange(s, end), literal, line: line as nat }
}

/// One scanning step at `s`, which must lie inside `src`.
pub open spec fn step(src: Seq<char>, s: int, line: int) -> Step {
    let c = src[s];
    if single_kind(c).is_some() {
        Step { end: s + 1, line, token: Some(token_at(src, s, s + 1, single_kind(c).unwrap(), None, line)), error: None }
    } else if pair_kinds(c).is_some() {
        let (one, two) = pair_kinds(c).unwrap();
        if s + 1 < src.len() && src[s + 1] == '=' {
            Step { end: s + 2, line, token: Some(token_at(src, s, s + 2, two, None, line)), error: None }
        } else {
            Step { end: s + 1, line, token: Some(token_at(src, s, s + 1, one, None, line)), error: None }
        }
    } else if c == '/' {
        if s + 1 < src.len() && src[s + 1] == '/' {
            Step { end: find_char(src, s + 2, '\n'), line, token: None, error: None }
        } else {
            Step { end: s + 1, line, token: Some(token_at(src, s, s + 1, TokenType::Slash, None, line)), error: None }
        }
    } else if c == ' ' || c == '\r' || c == '\t' {
        Step { end: s + 1, line, token: None, error: None }
    } else if c == '\n' {
        Step { end: s + 1, line: line + 1, token: None, error: None }
    } else if c == '"' {
        let q = find_char(src, s + 1, '"');
        let end = if q < src.len() { q + 1 } else { q };
        let lit = LiteralView::String(src.subrange(s + 1, q));
        Step {
            end,
            line: line + newlines(src.subrange(s, end)),
            token: Some(token_at(src, s, end, TokenType::String, Some(lit), line)),
            error: if q < src.len() { None } else { Some(LexError::UnterminatedString { line: line as usize }) },
        }
    } else if digit(c) {
        let e = digits_end(src, s + 1);
        let end = if e + 1 < src.len() && src[e] == '.' && digit(src[e + 1]) {
            digits_end(src, e + 2)
        } else {
            e
        };
        let lit = LiteralView::Number(src.subrange(s, end));
        Step { end, line, token: Some(token_at(src, s, end, TokenType::Number, Some(lit), line)), error: None }
    } else if alpha(c) {
        let end = alnum_end(src, s + 1);
        let kind = match keyword_kind(src.subrange(s, end)) {
            Some(k) => k,
            None => TokenType::Identifier,
        };
        Step { end, line, token: Some(token_at(src, s, end, kind, None, line)), error: None }
    } else {
        Step { end: s + 1, line, token: None, error: Some(LexError::UnexpectedChar { ch: c, line: line as usize }) }
    }
}

pub open spec fn opt_seq<A>(o: Option<A>) -> Seq<A> {
    match o {
        Some(a) => seq![a],
        None => Seq::empty(),
    }
}

/// The end-of-input token on line `line`.
pub open spec fn eof_token(line: int) -> TokenView {
    TokenView { kind: TokenType::Eof, lexeme: Seq::empty(), literal: None, line: line as nat }
}

/// The tokens scanned from position `pos` on, starting on line `line`.
pub open spec fn tokens_from(src: Seq<char>, pos: int, line: int) -> Seq<TokenView>
    decreases src.len() - pos,
{
    if 0 <= pos < src.len() {
        let st = step(src, pos, line);
        if pos < st.end <= src.len() {
            opt_seq(st.token) + tokens_from(src, st.end, st.line)
        } else {
            Seq::empty()
        }
    } else {
        seq![eof_token(line)]
    }
}

/// The diagnostics recorded from position `pos` on, starting on line `line`.
pub open spec fn errors_from(src: Seq<char>, pos: int, line: int) -> Seq<LexError>
    decreases src.len() - pos,
{
    if 0 <= pos < src.len() {
        let st = step(src, pos, line);
        if pos < st.end <= src.len() {
            opt_seq(st.error) + errors_from(src, st.end, st.line)
        } else {
            Seq::empty()
        }
    } else {
        Seq::empty()
    }
}

/// The tokens of `src`: those of each step in order, then end of input.
pub open spec fn scan_tokens(src: Seq<char>) -> Seq<TokenView> {
    tokens_from(src, 0, 1)
}

/// The diagnostics of `src`, in the order of their places.
pub open spec fn scan_errors(src: Seq<char>) -> Seq<LexError> {
    errors_from(src, 0, 1)
}

pub proof fn lemma_digits_end(src: Seq<char>, i: int)
    requires
        0 <= i <= src.len(),
    ensures
        i <= digits_end(src, i) <= src.len(),
    decreases src.len() - i,
{
    if i < src.len() && digit(src[i]) {
        lemma_digits_end(src, i + 1);
    }
}

pub proof fn lemma_alnum_end(src: Seq<char>, i: int)
    requires
        0 <= i <= src.len(),
    ensures
        i <= alnum_end(src, i) <= src.len(),
    decreases src.len() - i,
{
    if i < src.len() && alnum(src[i]) {
        lemma_alnum_end(src, i + 1);
    }
}

pub proof fn lemma_find_char(src: Seq<char>, i: int, c: char)
    requires
        0 <= i <= src.len(),
    ensures
        i <= find_char(src, i, c) <= src.len(),
        find_char(src, i, c) < src.len() ==> src[find_char(src, i, c)] == c,
    decreases src.len() - i,
{
    if i < src.len() && src[i] != c {
        lemma_find_char(src, i + 1, c);
    }
}

pub proof fn lemma_newlines_bound(s: Seq<char>)
    ensures
        newlines(s) <= s.len(),
    decreases s.len(),
{
    if s.len() > 0 {
        lemma_newlines_bound(s.drop_last());
    }
}

proof fn lemma_newlines_extend(src: Seq<char>, a: int, b: int)
    requires
        0 <= a <= b < src.len(),
    ensures
        newlines(src.subrange(a, b + 1)) == newlines(src.subrange(a, b)) + if src[b] == '\n' { 1nat } else { 0nat },
{
    assert(src.subrange(a, b + 1).drop_last() =~= src.subrange(a, b));
}

/// Every step consumes at least one character and stays inside the input;
/// the line grows by at most the number of characters consumed.
pub proof fn lemma_step_advances(src: Seq<char>, s: int, line: int)
    requires
        0 <= s < src.len(),
    ensures
        s < step(src, s, line).end <= src.len(),
        line <= step(src, s, line).line <= line + (step(src, s, line).end - s),
{
    let c = src[s];
    if single_kind(c).is_some() || pair_kinds(c).is_some() {
    } else if c == '/' {
        if s + 1 < src.len() && src[s + 1] == '/' {
            lemma_find_char(src, s + 2, '\n');
        }
    } else if c == '"' {
        lemma_find_char(src, s + 1, '"');
        let q = find_char(src, s + 1, '"');
        let end = if q < src.len() { q + 1 } else { q };
        lemma_newlines_bound(src.subrange(s, end));
    } else if digit(c) {
        lemma_digits_end(src, s + 1);
        let e = digits_end(src, s + 1);
        if e + 1 < src.len() && src[e] == '.' && digit(src[e + 1]) {
            lemma_digits_end(src, e + 2);
        }
    } else if alpha(c) {
        lemma_alnum_end(src, s + 1);
    }
}

/// Every scan ends with exactly one end-of-input token, and only there.
pub proof fn lemma_tokens_end_with_eof(src: Seq<char>, pos: int, line: int)
    requires
        0 <= pos <= src.len(),
    ensures
        tokens_from(src, pos, line).len() > 0,
        tokens_from(src, pos, line).last().kind == TokenType::Eof,
    decreases src.len() - pos,
{
    if pos < src.len() {
        lemma_step_advances(src, pos, line);
        let st = step(src, pos, line);
        lemma_tokens_end_with_eof(src, st.end, st.line);
    }
}

/// The tokens of any source end with the end-of-input token.
pub proof fn lemma_scan_ends_with_eof(src: Seq<char>)
    ensures
        scan_tokens(src).len() > 0,
        scan_tokens(src).last().kind == TokenType::Eof,
{
    lemma_tokens_end_with_eof(src, 0, 1);
}

/// Whether `src` from `i` on holds only whitespace and line comments.
pub open spec fn blank_from(src: Seq<char>, i: int) -> bool
    decreases src.len() - i,
{
    if 0 <= i < src.len() {
        let c = src[i];
        if c == ' ' || c == '\r' || c == '\t' || c == '\n' {
            blank_from(src, i + 1)
        } else if c == '/' && i + 1 < src.len() && src[i + 1] == '/' {
            let e = find_char(src, i + 2, '\n');
            if i < e <= src.len() {
                blank_from(src, e)
            } else {
                false
            }
        } else {
            false
        }
    } else {
        i == src.len()
    }
}

pub proof fn lemma_blank_from(src: Seq<char>, i: int, line: int)
    requires
        0 <= i <= src.len(),
        blank_from(src, i),
    ensures
        tokens_from(src, i, line).len() == 1,
        tokens_from(src, i, line)[0].kind == TokenType::Eof,
    decreases src.len() - i,
{
    if i < src.len() {
        lemma_step_advances(src, i, line);
        let st = step(src, i, line);
        let c = src[i];
        if c == '/' {
            lemma_find_char(src, i + 2, '\n');
        }
        lemma_blank_from(src, st.end, st.line);
        assert(tokens_from(src, i, line) =~= tokens_from(src, st.end, st.line));
    }
}

/// A source of whitespace and line comments alone scans to the
/// end-of-input token and nothing else.
pub proof fn lemma_blank_source(src: Seq<char>)
    requires
        blank_from(src, 0),
    ensures
        scan_tokens(src).len() == 1,
        scan_tokens(src)[0].kind == TokenType::Eof,
{
    lemma_blank_from(src, 0, 1);
}

/// The kind of the token that the punctuation character `c` forms alone.
pub open spec fn punctuation_kind(c: char) -> TokenType {
    if single_kind(c).is_some() {
        single_kind(c).unwrap()
    } else if pair_kinds(c).is_some() {
        pair_kinds(c).unwrap().0
    } else {
        TokenType::Slash
    }
}

/// A single punctuation character scans to its own token, whose lexeme is
/// that character, followed by the end-of-input token.
pub proof fn lemma_single_punctuation(c: char)
    requires
        single_kind(c).is_some() || pair_kinds(c).is_some() || c == '/',
    ensures
        scan_tokens(seq![c]).len() == 2,
        scan_tokens(seq![c])[0].kind == punctuation_kind(c),
        scan_tokens(seq![c])[0].lexeme == seq![c],
        scan_tokens(seq![c])[1].kind == TokenType::Eof,
{
    let src = seq![c];
    lemma_step_advances(src, 0, 1);
    let st = step(src, 0, 1);
    assert(st.end == 1);
    assert(src.subrange(0, 1) =~= src);
    assert(tokens_from(src, 1, st.line) == seq![eof_token(st.line)]);
}

/// A string literal is one token on the line where it starts, and what
/// follows it starts that many lines later as it holds newlines.
pub proof fn lemma_string_lines(src: Seq<char>, s: int, line: int)
    requires
        0 <= s < src.len(),
        src[s] == '"',
        1 <= line,
    ensures
        ({
            let end = step(src, s, line).end;
            let t = step(src, s, line).token.unwrap();
            &&& t.kind == TokenType::String
            &&& t.line == line
            &&& tokens_from(src, s, line) == seq![t] + tokens_from(src, end, line + newlines(src.subrange(s, end)))
        }),
{
    lemma_step_advances(src, s, line);
}

pub proof fn lemma_newlines_concat(a: Seq<char>, b: Seq<char>)
    ensures
        newlines(a + b) == newlines(a) + newlines(b),
    decreases b.len(),
{
    if b.len() > 0 {
        assert((a + b).drop_last() =~= a + b.drop_last());
        lemma_newlines_concat(a, b.drop_last());
    } else {
        assert(a + b =~= a);
    }
}

pub open spec fn whitespace(c: char) -> bool {
    c == ' ' || c == '\r' || c == '\t' || c == '\n'
}

/// Over a run of whitespace from `i` to `j`, scanning records nothing and
/// the line grows by exactly the number of newlines in the run.
pub proof fn lemma_whitespace_lines(src: Seq<char>, i: int, j: int, line: int)
    requires
        0 <= i <= j <= src.len(),
        forall|k: int| i <= k < j ==> whitespace(#[trigger] src[k]),
    ensures
        tokens_from(src, i, line) == tokens_from(src, j, line + newlines(src.subrange(i, j))),
        errors_from(src, i, line) == errors_from(src, j, line + newlines(src.subrange(i, j))),
    decreases j - i,
{
    if i < j {
        lemma_step_advances(src, i, line);
        let st = step(src, i, line);
        assert(whitespace(src[i]));
        assert(st.end == i + 1);
        lemma_whitespace_lines(src, i + 1, j, st.line);
        assert(src.subrange(i, j) =~= src.subrange(i, i + 1) + src.subrange(i + 1, j));
        lemma_newlines_concat(src.subrange(i, i + 1), src.subrange(i + 1, j));
        assert(src.subrange(i, i + 1).drop_last() =~= Seq::<char>::empty());
        assert(newlines(Seq::<char>::empty()) == 0);
        assert(newlines(src.subrange(i, i + 1)) == if src[i] == '\n' { 1nat } else { 0nat });
        assert(st.line == line + newlines(src.subrange(i, i + 1)));
        assert(opt_seq(st.token) + tokens_from(src, i + 1, st.line) =~= tokens_from(src, i + 1, st.line));
        assert(opt_seq(st.error) + errors_from(src, i + 1, st.line) =~= errors_from(src, i + 1, st.line));
    } else {
        assert(src.subrange(i, j) =~= Seq::<char>::empty());
    }
}

fn is_digit(c: char) -> (r: bool)
    ensures
        r == digit(c),
{
    '0' <= c && c <= '9'
}

fn is_alpha(c: char) -> (r: bool)
    ensures
        r == alpha(c),
{
    is_alphabetic(c) || c == '_'
}

fn is_alphanum(c: char) -> (r: bool)
    ensures
        r == alnum(c),
{
    is_digit(c) || is_alpha(c)
}

/// Whether two texts are the same, character by character.
fn same_text(a: &str, b: &str) -> (r: bool)
    ensures
        r == (a@ == b@),
{
    let n = a.unicode_len();
    if n != b.unicode_len() {
        return false;
    }
    let mut i: usize = 0;
    while i < n
        invariant
            n == a@.len(),
            n == b@.len(),
            i <= n,
            forall|j: int| 0 <= j < i ==> a@[j] == b@[j],
        decreases n - i,
    {
        if a.get_char(i) != b.get_char(i) {
            return false;
        }
        i += 1;
    }
    assert(a@ =~= b@);
    true
}

/// The reserved word that `text` spells, if any.
pub fn keyword(text: &str) -> (r: Option<TokenType>)
    ensures
        r == keyword_kind(text@),
{
    if same_text(text, "and") {
        Some(TokenType::And)
    } else if same_text(text, "class") {
        Some(TokenType::Class)
    } else if same_text(text, "else") {
        Some(TokenType::Else)
    } else if same_text(text, "false") {
        Some(TokenType::False)
    } else if same_text(text, "fun") {
        Some(TokenType::Fun)
    } else if same_text(text, "for") {
        Some(TokenType::For)
    } else if same_text(text, "if") {
        Some(TokenType::If)
    } else if same_text(text, "nil") {
        Some(TokenType::Nil)
    } else if same_text(text, "or") {
        Some(TokenType::Or)
    } else if same_text(text, "print") {
        Some(TokenType::Print)
    } else if same_text(text, "return") {
        Some(TokenType::Return)
    } else if same_text(text, "super") {
        Some(TokenType::Super)
    } else if same_text(text, "this") {
        Some(TokenType::This)
    } else if same_text(text, "true") {
        Some(TokenType::True)
    } else if same_text(text, "var") {
        Some(TokenType::Var)
    } else if same_text(text, "while") {
        Some(TokenType::While)
    } else {
        None
    }
}

/// A scanner over one source text. It is used once: `lex_tokens` consumes it.
pub struct Lexer {
    source: String,
    len: usize,
    tokens: Vec<Token>,
    errors: Vec<LexError>,
    start: usize,
    current: usize,
    line: usize,
}

impl Lexer {
    /// The source text, as characters.
    pub closed spec fn text(&self) -> Seq<char> {
        self.source@
    }

    closed spec fn text_ok(&self) -> bool {
        &&& self.source@.len() == self.len
        &&& self.len + 2 <= usize::MAX
    }

    closed spec fn wf(&self) -> bool {
        &&& self.text_ok()
        &&& self.start <= self.current <= self.len
        &&& 1 <= self.line <= 1 + self.current
    }

    /// A scanner that has not read anything yet.
    pub closed spec fn is_fresh(&self) -> bool {
        &&& self.wf()
        &&& self.tokens@.len() == 0
        &&& self.errors@.len() == 0
        &&& self.current == 0
        &&& self.line == 1
    }

    /// `b` is `a` with the cursor moved and nothing else changed.
    closed spec fn moved(a: Lexer, b: Lexer) -> bool {
        &&& b.source == a.source
        &&& b.len == a.len
        &&& b.tokens == a.tokens
        &&& b.errors == a.errors
        &&& b.start == a.start
        &&& b.line == a.line
    }

    /// `b` is `a` after one scanning step from `a.start`.
    closed spec fn did_step(a: Lexer, b: Lexer) -> bool {
        let st = step(a.source@, a.start as int, a.line as int);
        &&& b.wf()
        &&& b.source == a.source
        &&& b.len == a.len
        &&& b.current == st.end
        &&& b.line == st.line
        &&& views(b.tokens@) == views(a.tokens@) + opt_seq(st.token)
        &&& b.errors@ == a.errors@ + opt_seq(st.error)
    }

    pub fn new(source: String) -> (r: Self)
        requires
            source@.len() + 2 <= usize::MAX,
        ensures
            r.text() == source@,
            r.is_fresh(),
    {
        let len = source.as_str().unicode_len();
        Lexer { source, len, tokens: Vec::new(), errors: Vec::new(), start: 0, current: 0, line: 1 }
    }

    fn at_end(&self) -> (r: bool)
        ensures
            r == (self.current >= self.len),
    {
        self.current >= self.len
    }

    fn peek(&self) -> (r: char)
        requires
            self.text_ok(),
        ensures
            self.current < self.len ==> r == self.source@[self.current as int],
            self.current >= self.len ==> r == '\0',
    {
        if self.current >= self.len {
            return '\0';
        }
        self.source.as_str().get_char(self.current)
    }

    fn peek_next(&self) -> (r: char)
        requires
            self.text_ok(),
        ensures
            self.current + 1 < self.len ==> r == self.source@[self.current + 1],
            self.current + 1 >= self.len ==> r == '\0',
    {
        if self.current >= self.len || self.current + 1 >= self.len {
            return '\0';
        }
        self.source.as_str().get_char(self.current + 1)
    }

    fn advance(&mut self) -> (r: char)
        requires
            old(self).text_ok(),
            old(self).current < old(self).len,
        ensures
            Self::moved(*old(self), *final(self)),
            final(self).current == old(self).current + 1,
            r == old(self).source@[old(self).current as int],
    {
        let c = self.source.as_str().get_char(self.current);
        self.current = self.current + 1;
        c
    }

    fn match_next(&mut self, expected: char) -> (r: bool)
        requires
            old(self).text_ok(),
        ensures
            Self::moved(*old(self), *final(self)),
            r == (old(self).current < old(self).len && old(self).source@[old(self).current as int] == expected),
            final(self).current == old(self).current + if r { 1int } else { 0int },
    {
        if self.at_end() {
            return false;
        }
        if self.source.as_str().get_char(self.current) != expected {
            return false;
        }
        self.current = self.current + 1;
        true
    }

    fn substring(&self, from: usize, to: usize) -> (r: String)
        requires
            self.text_ok(),
            from <= to <= self.len,
        ensures
            r@ == self.source@.subrange(from as int, to as int),
    {
        String::from_str(self.source.as_str().substring_char(from, to))
    }

    fn add_token(&mut self, kind: TokenType, literal: Option<Literal>, line: usize)
        requires
            old(self).text_ok(),
            old(self).start <= old(self).current <= old(self).len,
        ensures
            final(self).source == old(self).source,
            final(self).len == old(self).len,
            final(self).start == old(self).start,
            final(self).current == old(self).current,
            final(self).line == old(self).line,
            final(self).errors == old(self).errors,
            views(final(self).tokens@) == views(old(self).tokens@).push(
                token_at(old(self).source@, old(self).start as int, old(self).current as int, kind, literal_view(literal), line as int),
            ),
    {
        let lexeme = self.substring(self.start, self.current);
        let t = Token::new(kind, lexeme, literal, line);
        proof {
            lemma_views_push(self.tokens@, t);
        }
        self.tokens.push(t);
    }

    fn string(&mut self)
        requires
            old(self).wf(),
            old(self).start < old(self).len,
            old(self).source@[old(self).start as int] == '"',
            old(self).current == old(self).start + 1,
            old(self).line <= 1 + old(self).start,
        ensures
            Self::did_step(*old(self), *final(self)),
    {
        let ghost src = self.source@;
        let ghost pre = *self;
        let line0 = self.line;
        proof {
            lemma_newlines_extend(src, self.start as int, self.start as int);
            assert(src.subrange(self.start as int, self.start as int).len() == 0);
        }
        while self.peek() != '"' && !self.at_end()
            invariant
                self.text_ok(),
                self.source@ == src,
                src == pre.source@,
                self.source == pre.source,
                self.len == pre.len,
                self.tokens == pre.tokens,
                self.errors == pre.errors,
                self.start == pre.start,
                self.start + 1 <= self.current <= self.len,
                find_char(src, self.current as int, '"') == find_char(src, self.start + 1, '"'),
                self.line == line0 + newlines(src.subrange(self.start as int, self.current as int)),
                line0 == pre.line,
                line0 <= 1 + self.start,
            decreases self.len - self.current,
        {
            proof {
                lemma_newlines_bound(src.subrange(self.start as int, self.current as int));
                lemma_newlines_extend(src, self.start as int, self.current as int);
            }
            if self.peek() == '\n' {
                self.line = self.line + 1;
            }
            self.advance();
        }
        proof {
            lemma_newlines_bound(src.subrange(self.start as int, self.current as int));
        }
        let terminated = !self.at_end();
        let text_end = self.current;
        if terminated {
            proof {
                lemma_newlines_extend(src, self.start as int, self.current as int);
            }
            self.advance();
        } else {
            self.errors.push(LexError::UnterminatedString { line: line0 });
        }
        let text = self.substring(self.start + 1, text_end);
        self.add_token(TokenType::String, Some(Literal::String(text)), line0);
        proof {
            let st = step(src, pre.start as int, pre.line as int);
            assert(views(self.tokens@) =~= views(pre.tokens@) + opt_seq(st.token));
            assert(self.errors@ =~= pre.errors@ + opt_seq(st.error));
        }
    }

    fn number(&mut self)
        requires
            old(self).wf(),
            old(self).start < old(self).len,
            digit(old(self).source@[old(self).start as int]),
            old(self).current == old(self).start + 1,
        ensures
            Self::did_step(*old(self), *final(self)),
    {
        let ghost src = self.source@;
        let ghost pre = *self;
        while is_digit(self.peek())
            invariant
                self.text_ok(),
                self.source@ == src,
                src == pre.source@,
                Self::moved(pre, *self),
                self.start + 1 <= self.current <= self.len,
                digits_end(src, self.current as int) == digits_end(src, self.start + 1),
            decreases self.len - self.current,
        {
            self.advance();
        }
        let ghost e = self.current as int;
        if self.peek() == '.' && is_digit(self.peek_next()) {
            self.advance();
            while is_digit(self.peek())
                invariant
                    self.text_ok(),
                    self.source@ == src,
                    src == pre.source@,
                    Self::moved(pre, *self),
                    e + 1 <= self.current <= self.len,
                    digits_end(src, self.current as int) == digits_end(src, e + 2),
                decreases self.len - self.current,
            {
                self.advance();
            }
        }
        let text = self.substring(self.start, self.current);
        let line = self.line;
        self.add_token(TokenType::Number, Some(Literal::Number(text)), line);
        proof {
            let st = step(src, pre.start as int, pre.line as int);
            assert(views(self.tokens@) =~= views(pre.tokens@) + opt_seq(st.token));
            assert(self.errors@ =~= pre.errors@ + opt_seq(st.error));
        }
    }

    fn identifier(&mut self)
        requires
            old(self).wf(),
            old(self).start < old(self).len,
            alpha(old(self).source@[old(self).start as int]),
            plain(old(self).source@[old(self).start as int]),
            old(self).current == old(self).start + 1,
        ensures
            Self::did_step(*old(self), *final(self)),
    {
        let ghost src = self.source@;
        let ghost pre = *self;
        while !self.at_end() && is_alphanum(self.peek())
            invariant
                self.text_ok(),
                self.source@ == src,
                src == pre.source@,
                Self::moved(pre, *self),
                self.start + 1 <= self.current <= self.len,
                alnum_end(src, self.current as int) == alnum_end(src, self.start + 1),
            decreases self.len - self.current,
        {
            self.advance();
        }
        let text = self.substring(self.start, self.current);
        let kind = match keyword(text.as_str()) {
            Some(k) => k,
            None => TokenType::Identifier,
        };
        let line = self.line;
        self.add_token(kind, None, line);
        proof {
            let st = step(src, pre.start as int, pre.line as int);
            assert(views(self.tokens@) =~= views(pre.tokens@) + opt_seq(st.token));
            assert(self.errors@ =~= pre.errors@ + opt_seq(st.error));
        }
    }

    fn simple(&mut self, kind: TokenType)
        requires
            old(self).wf(),
            old(self).current <= old(self).len,
        ensures
            final(self).wf(),
            final(self).source == old(self).source,
            final(self).len == old(self).len,
            final(self).current == old(self).current,
            final(self).line == old(self).line,
            final(self).errors == old(self).errors,
            views(final(self).tokens@) == views(old(self).tokens@) + seq![
                token_at(old(self).source@, old(self).start as int, old(self).current as int, kind, None, old(self).line as int),
            ],
    {
        let line = self.line;
        let ghost pre = *self;
        self.add_token(kind, None, line);
        assert(views(self.tokens@) =~= views(pre.tokens@) + seq![
            token_at(pre.source@, pre.start as int, pre.current as int, kind, None, pre.line as int),
        ]);
    }

    fn lex_token(&mut self)
        requires
            old(self).wf(),
            old(self).start == old(self).current,
            old(self).current < old(self).len,
        ensures
            Self::did_step(*old(self), *final(self)),
    {
        let ghost src = self.source@;
        let ghost pre = *self;
        let c = self.advance();
        match c {
            '(' => self.simple(TokenType::LeftParen),
            ')' => self.simple(TokenType::RightParen),
            '{' => self.simple(TokenType::LeftBrace),
            '}' => self.simple(TokenType::RightBrace),
            ',' => self.simple(TokenType::Comma),
            '.' => self.simple(TokenType::Dot),
            '-' => self.simple(TokenType::Minus),
            '+' => self.simple(TokenType::Plus),
            ';' => self.simple(TokenType::Semicolon),
            '*' => self.simple(TokenType::Star),
            '!' => {
                let t = if self.match_next('=') {
                    TokenType::BangEqual
                } else {
                    TokenType::Bang
                };
                self.simple(t);
            },
            '=' => {
                let t = if self.match_next('=') {
                    TokenType::EqualEqual
                } else {
                    TokenType::Equal
                };
                self.simple(t);
            },
            '>' => {
                let t = if self.match_next('=') {
                    TokenType::GreaterEqual
                } else {
                    TokenType::Greater
                };
                self.simple(t);
            },
            '<' => {
                let t = if self.match_next('=') {
                    TokenType::LessEqual
                } else {
                    TokenType::Less
                };
                self.simple(t);
            },
            '/' => {
                if self.match_next('/') {
                    while self.peek() != '\n' && !self.at_end()
                        invariant
                            self.text_ok(),
                            self.source@ == src,
                            src == pre.source@,
                            Self::moved(pre, *self),
                            pre.start + 2 <= self.current <= self.len,
                            find_char(src, self.current as int, '\n') == find_char(src, pre.start + 2, '\n'),
                        decreases self.len - self.current,
                    {
                        self.advance();
                    }
                    assert(views(self.tokens@) =~= views(pre.tokens@) + Seq::<TokenView>::empty());
                    assert(self.errors@ =~= pre.errors@ + Seq::<LexError>::empty());
                } else {
                    self.simple(TokenType::Slash);
                }
            },
            ' ' | '\r' | '\t' => {
                assert(views(self.tokens@) =~= views(pre.tokens@) + Seq::<TokenView>::empty());
                assert(self.errors@ =~= pre.errors@ + Seq::<LexError>::empty());
            },
            '\n' => {
                self.line = self.line + 1;
                assert(views(self.tokens@) =~= views(pre.tokens@) + Seq::<TokenView>::empty());
                assert(self.errors@ =~= pre.errors@ + Seq::<LexError>::empty());
            },
            '"' => self.string(),
            _ => {
                if is_digit(c) {
                    self.number();
                } else if is_alpha(c) {
                    self.identifier();
                } else {
                    let line = self.line;
                    self.errors.push(LexError::UnexpectedChar { ch: c, line });
                    assert(views(self.tokens@) =~= views(pre.tokens@) + Seq::<TokenView>::empty());
                    assert(self.errors@ =~= pre.errors@ + seq![LexError::UnexpectedChar { ch: c, line }]);
                }
            },
        }
    }

    /// Scans the whole source: the tokens, ending with one end-of-input
    /// token, and every lexical diagnostic, in the order of their places.
    pub fn lex_tokens(self) -> (r: (Vec<Token>, Vec<LexError>))
        requires
            self.is_fresh(),
        ensures
            views(r.0@) == scan_tokens(self.text()),
            r.1@ == scan_errors(self.text()),
    {
        let mut lx = self;
        let ghost src = lx.source@;
        assert(views(lx.tokens@) =~= Seq::<TokenView>::empty());
        assert(views(lx.tokens@) + scan_tokens(src) =~= scan_tokens(src));
        assert(lx.errors@ + scan_errors(src) =~= scan_errors(src));
        while !lx.at_end()
            invariant
                lx.wf(),
                lx.source@ == src,
                views(lx.tokens@) + tokens_from(src, lx.current as int, lx.line as int) == scan_tokens(src),
                lx.errors@ + errors_from(src, lx.current as int, lx.line as int) == scan_errors(src),
            decreases lx.len - lx.current,
        {
            lx.start = lx.current;
            let ghost pre = lx;
            lx.lex_token();
            proof {
                let st = step(src, pre.current as int, pre.line as int);
                lemma_step_advances(src, pre.current as int, pre.line as int);
                assert(tokens_from(src, pre.current as int, pre.line as int)
                    == opt_seq(st.token) + tokens_from(src, st.end, st.line));
                assert(errors_from(src, pre.current as int, pre.line as int)
                    == opt_seq(st.error) + errors_from(src, st.end, st.line));
                assert(views(pre.tokens@) + (opt_seq(st.token) + tokens_from(src, st.end, st.line))
                    =~= (views(pre.tokens@) + opt_seq(st.token)) + tokens_from(src, st.end, st.line));
                assert(pre.errors@ + (opt_seq(st.error) + errors_from(src, st.end, st.line))
                    =~= (pre.errors@ + opt_seq(st.error)) + errors_from(src, st.end, st.line));
            }
        }
        let line = lx.line;
        let eof = Token::new(TokenType::Eof, String::new(), None, line);
        proof {
            lemma_views_push(lx.tokens@, eof);
            assert(eof@ == eof_token(line as int));
            assert(lx.errors@ + Seq::<LexError>::empty() =~= lx.errors@);
        }
        lx.tokens.push(eof);
        (lx.tokens, lx.errors)
    }

} // impl Lexer

} // verus!
