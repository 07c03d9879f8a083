//! The character-level tokenizer: classifies the input text into the
//! closed token-kind set, one token per call, carrying each token's exact
//! source literal. Once the input is exhausted it yields the end-of-input
//! token on every further call.

use vstd::prelude::*;
use vstd::string::StrSliceExecFns;
use vstd::string::StringExecFns;

use crate::text::str_eq;
use crate::token::{Token, TokenKind, TokenV};

verus! {

/// A tokenizer over one input text, with a current character and a
/// one-character read cursor.
pub struct Lexer {
    input: String,
    position: usize,
    read_position: usize,
    ch: char,
}

/// The mathematical model of a tokenizer state.
pub ghost struct LexerV {
    pub input: Seq<char>,
    pub position: nat,
    pub read_position: nat,
    pub ch: char,
}

impl View for Lexer {
    type V = LexerV;

    closed spec fn view(&self) -> LexerV {
        LexerV {
            input: self.input@,
            position: self.position as nat,
            read_position: self.read_position as nat,
            ch: self.ch,
        }
    }
}

/// The character of `s` at `p`, the NUL sentinel past the end.
pub open spec fn char_at(s: Seq<char>, p: nat) -> char {
    if p < s.len() {
        s[p as int]
    } else {
        '\0'
    }
}

/// Well-formedness of a tokenizer state: the read cursor sits one past
/// the current position, the position never leaves the input, the input
/// leaves the cursor room in `usize`, and the current character is the
/// one under the position (the NUL sentinel at the end).
pub open spec fn lexer_wf(l: LexerV) -> bool {
    &&& l.read_position == l.position + 1
    &&& l.position <= l.input.len()
    &&& l.input.len() <= usize::MAX - 2
    &&& l.ch == char_at(l.input, l.position)
}

/// One cursor step: load the character under the read cursor (the NUL
/// sentinel past the end) and advance; a cursor already past the
/// sentinel stays put.
pub open spec fn spec_read_char(l: LexerV) -> LexerV {
    if l.read_position <= l.input.len() {
        LexerV {
            input: l.input,
            position: l.read_position,
            read_position: l.read_position + 1,
            ch: char_at(l.input, l.read_position),
        }
    } else {
        LexerV { input: l.input, position: l.position, read_position: l.read_position, ch: '\0' }
    }
}

/// The tokenizer state a fresh `Lexer` starts in: the cursor loaded with
/// the first character.
pub open spec fn spec_new_lexer(input: Seq<char>) -> LexerV {
    spec_read_char(LexerV { input, position: 0, read_position: 0, ch: '\0' })
}

/// Whether `c` is blank space the tokenizer skips.
pub open spec fn is_space_char(c: char) -> bool {
    c == ' ' || c == '\t' || c == '\r' || c == '\n'
}

/// Whether `c` is a decimal digit.
pub open spec fn is_digit_char(c: char) -> bool {
    '0' <= c && c <= '9'
}

/// Whether `c` continues an identifier: an ASCII letter or underscore.
pub open spec fn is_letter_char(c: char) -> bool {
    ('a' <= c && c <= 'z') || ('A' <= c && c <= 'Z') || c == '_'
}

/// The state after skipping blank space.
pub open spec fn spec_skip(l: LexerV) -> LexerV
    decreases l.input.len() - l.position,
        when lexer_wf(l)
{
    if is_space_char(l.ch) {
        spec_skip(spec_read_char(l))
    } else {
        l
    }
}

/// The state after skipping a run of decimal digits.
pub open spec fn spec_skip_digits(l: LexerV) -> LexerV
    decreases l.input.len() - l.position,
        when lexer_wf(l)
{
    if is_digit_char(l.ch) {
        spec_skip_digits(spec_read_char(l))
    } else {
        l
    }
}

/// The state after skipping a run of identifier characters.
pub open spec fn spec_skip_letters(l: LexerV) -> LexerV
    decreases l.input.len() - l.position,
        when lexer_wf(l)
{
    if is_letter_char(l.ch) {
        spec_skip_letters(spec_read_char(l))
    } else {
        l
    }
}

/// The state after advancing to the closing quote of a string literal,
/// or to the end of an unterminated one.
pub open spec fn spec_skip_string(l: LexerV) -> LexerV
    decreases l.input.len() - l.position,
        when lexer_wf(l)
{
    if l.ch == '"' || l.ch == '\0' {
        l
    } else {
        spec_skip_string(spec_read_char(l))
    }
}

/// The character one past the read cursor, the NUL sentinel at or past
/// the last input character.
pub open spec fn spec_peek(l: LexerV) -> char {
    if l.read_position + 1 >= l.input.len() {
        '\0'
    } else {
        l.input[l.read_position as int]
    }
}

/// The token kind of an identifier run: its keyword kind if it is one of
/// the seven keywords, else a plain identifier.
pub open spec fn keyword_kind(lit: Seq<char>) -> TokenKind {
    if lit == "let"@ {
        TokenKind::Let
    } else if lit == "fn"@ {
        TokenKind::Function
    } else if lit == "if"@ {
        TokenKind::If
    } else if lit == "else"@ {
        TokenKind::Else
    } else if lit == "return"@ {
        TokenKind::Return
    } else if lit == "true"@ {
        TokenKind::True
    } else if lit == "false"@ {
        TokenKind::False
    } else {
        TokenKind::Identifier
    }
}

/// The next token of `l0` and the state after scanning it: blank space
/// skipped, then one token classified by its first character.
pub open spec fn spec_next_token(l0: LexerV) -> (TokenV, LexerV)
    recommends
        lexer_wf(l0),
{
    let l = spec_skip(l0);
    if l.ch == '=' {
        if spec_peek(l) == '=' {
            (
                TokenV { kind: TokenKind::Eq, literal: "=="@ },
                spec_read_char(spec_read_char(l)),
            )
        } else {
            (TokenV { kind: TokenKind::Assign, literal: seq![l.ch] }, spec_read_char(l))
        }
    } else if l.ch == '+' {
        (TokenV { kind: TokenKind::Plus, literal: seq![l.ch] }, spec_read_char(l))
    } else if l.ch == '-' {
        (TokenV { kind: TokenKind::Minus, literal: seq![l.ch] }, spec_read_char(l))
    } else if l.ch == '*' {
        (TokenV { kind: TokenKind::Asterisk, literal: seq![l.ch] }, spec_read_char(l))
    } else if l.ch == '/' {
        (TokenV { kind: TokenKind::Slash, literal: seq![l.ch] }, spec_read_char(l))
    } else if l.ch == '!' {
        if spec_peek(l) == '=' {
            (
                TokenV { kind: TokenKind::NotEq, literal: "!="@ },
                spec_read_char(spec_read_char(l)),
            )
        } else {
            (TokenV { kind: TokenKind::Bang, literal: seq![l.ch] }, spec_read_char(l))
        }
    } else if l.ch == '<' {
        (TokenV { kind: TokenKind::Lt, literal: seq![l.ch] }, spec_read_char(l))
    } else if l.ch == '>' {
        (TokenV { kind: TokenKind::Gt, literal: seq![l.ch] }, spec_read_char(l))
    } else if l.ch == ';' {
        (TokenV { kind: TokenKind::Semicolon, literal: seq![l.ch] }, spec_read_char(l))
    } else if l.ch == ',' {
        (TokenV { kind: TokenKind::Comma, literal: seq![l.ch] }, spec_read_char(l))
    } else if l.ch == '(' {
        (TokenV { kind: TokenKind::Lparen, literal: seq![l.ch] }, spec_read_char(l))
    } else if l.ch == ')' {
        (TokenV { kind: TokenKind::Rparen, literal: seq![l.ch] }, spec_read_char(l))
    } else if l.ch == '{' {
        (TokenV { kind: TokenKind::Lbrace, literal: seq![l.ch] }, spec_read_char(l))
    } else if l.ch == '}' {
        (TokenV { kind: TokenKind::Rbrace, literal: seq![l.ch] }, spec_read_char(l))
    } else if l.ch == '[' {
        (TokenV { kind: TokenKind::Lbracket, literal: seq![l.ch] }, spec_read_char(l))
    } else if l.ch == ']' {
        (TokenV { kind: TokenKind::Rbracket, literal: seq![l.ch] }, spec_read_char(l))
    } else if is_digit_char(l.ch) {
        let l2 = spec_skip_digits(l);
        (
            TokenV {
                kind: TokenKind::Integer,
                literal: l.input.subrange(l.position as int, l2.position as int),
            },
            l2,
        )
    } else if is_letter_char(l.ch) {
        let l2 = spec_skip_letters(l);
        let lit = l.input.subrange(l.position as int, l2.position as int);
        (TokenV { kind: keyword_kind(lit), literal: lit }, l2)
    } else if l.ch == '"' {
        let l2 = spec_skip_string(spec_read_char(l));
        (
            TokenV {
                kind: TokenKind::String,
                literal: l.input.subrange(l.position + 1int, l2.position as int),
            },
            spec_read_char(l2),
        )
    } else if l.ch == '\0' {
        (TokenV { kind: TokenKind::Eof, literal: seq!['\0'] }, l)
    } else {
        (TokenV { kind: TokenKind::Illegal, literal: seq![l.ch] }, spec_read_char(l))
    }
}

/// Skipping blank space keeps the input and well-formedness and never
/// moves the cursor backwards.
pub proof fn lemma_skip_props(l: LexerV)
    requires
        lexer_wf(l),
    ensures
        lexer_wf(spec_skip(l)),
        spec_skip(l).input == l.input,
        spec_skip(l).position >= l.position,
    decreases l.input.len() - l.position,
{
    if is_space_char(l.ch) {
        lemma_skip_props(spec_read_char(l));
    }
}

/// Skipping a digit run keeps the input and well-formedness and never
/// moves the cursor backwards.
pub proof fn lemma_skip_digits_props(l: LexerV)
    requires
        lexer_wf(l),
    ensures
        lexer_wf(spec_skip_digits(l)),
        spec_skip_digits(l).input == l.input,
        spec_skip_digits(l).position >= l.position,
    decreases l.input.len() - l.position,
{
    if is_digit_char(l.ch) {
        lemma_skip_digits_props(spec_read_char(l));
    }
}

/// Skipping an identifier run keeps the input and well-formedness and
/// never moves the cursor backwards.
pub proof fn lemma_skip_letters_props(l: LexerV)
    requires
        lexer_wf(l),
    ensures
        lexer_wf(spec_skip_letters(l)),
        spec_skip_letters(l).input == l.input,
        spec_skip_letters(l).position >= l.position,
    decreases l.input.len() - l.position,
{
    if is_letter_char(l.ch) {
        lemma_skip_letters_props(spec_read_char(l));
    }
}

/// Scanning to the end of a string literal keeps the input and
/// well-formedness and never moves the cursor backwards.
pub proof fn lemma_skip_string_props(l: LexerV)
    requires
        lexer_wf(l),
    ensures
        lexer_wf(spec_skip_string(l)),
        spec_skip_string(l).input == l.input,
        spec_skip_string(l).position >= l.position,
    decreases l.input.len() - l.position,
{
    if !(l.ch == '"' || l.ch == '\0') {
        lemma_skip_string_props(spec_read_char(l));
    }
}

/// Scanning one token keeps the input and well-formedness, never moves
/// the cursor backwards, and moves it strictly forward for every token
/// but end-of-input.
pub proof fn lemma_next_token_props(l: LexerV)
    requires
        lexer_wf(l),
    ensures
        lexer_wf(spec_next_token(l).1),
        spec_next_token(l).1.input == l.input,
        spec_next_token(l).1.position >= l.position,
        spec_next_token(l).0.kind != TokenKind::Eof ==> spec_next_token(l).1.position
            > spec_skip(l).position >= l.position,
{
    lemma_skip_props(l);
    let ls = spec_skip(l);
    if is_digit_char(ls.ch) {
        lemma_skip_digits_props(spec_read_char(ls));
    } else if is_letter_char(ls.ch) {
        lemma_skip_letters_props(spec_read_char(ls));
    } else if ls.ch == '"' {
        lemma_skip_string_props(spec_read_char(ls));
    }
}

/// The whole token stream of a tokenizer state: every token up to and
/// including the first end-of-input token.
pub open spec fn spec_tokens(l: LexerV) -> Seq<TokenV>
    decreases l.input.len() - l.position + 1,
        when lexer_wf(l)
        via spec_tokens_decreases
{
    let (t, l2) = spec_next_token(l);
    if t.kind is Eof {
        seq![t]
    } else {
        seq![t] + spec_tokens(l2)
    }
}

#[via_fn]
proof fn spec_tokens_decreases(l: LexerV) {
    lemma_next_token_props(l);
}

/// The token stream always ends with the end-of-input token, and with
/// nothing after it.
pub proof fn lemma_spec_tokens_shape(l: LexerV)
    requires
        lexer_wf(l),
    ensures
        spec_tokens(l).len() >= 1,
        spec_tokens(l).last().kind is Eof,
    decreases l.input.len() - l.position + 1,
{
    lemma_next_token_props(l);
    let (t, l2) = spec_next_token(l);
    if !(t.kind is Eof) {
        lemma_spec_tokens_shape(l2);
    }
}

/// Once the tokenizer yields end-of-input it keeps yielding it, with no
/// further change of state, on every later call.
pub proof fn lemma_eof_token_is_final(l: LexerV)
    requires
        lexer_wf(l),
        spec_next_token(l).0.kind is Eof,
    ensures
        spec_next_token(spec_next_token(l).1) == spec_next_token(l),
{
    lemma_skip_props(l);
    let ls = spec_skip(l);
    assert(ls.ch == '\0' && spec_next_token(l).1 == ls);
    assert(spec_skip(ls) == ls);
}

/// On input made of digits only, skipping the digit run reaches the end
/// of the input.
pub proof fn lemma_skip_digits_to_end(l: LexerV)
    requires
        lexer_wf(l),
        forall|i: int| l.position <= i < l.input.len() ==> is_digit_char(#[trigger] l.input[i]),
    ensures
        spec_skip_digits(l).position == l.input.len(),
        spec_skip_digits(l).input == l.input,
        lexer_wf(spec_skip_digits(l)),
    decreases l.input.len() - l.position,
{
    if is_digit_char(l.ch) {
        lemma_skip_digits_to_end(spec_read_char(l));
    } else {
        assert(l.position == l.input.len());
    }
}

/// A text of decimal digits alone scans as exactly one integer token
/// carrying the whole text, then end-of-input.
pub proof fn lemma_tokens_of_digit_run(input: Seq<char>)
    requires
        1 <= input.len() <= usize::MAX - 2,
        forall|i: int| 0 <= i < input.len() ==> is_digit_char(#[trigger] input[i]),
    ensures
        spec_tokens(spec_new_lexer(input)) == seq![
            TokenV { kind: TokenKind::Integer, literal: input },
            TokenV { kind: TokenKind::Eof, literal: seq!['\0'] },
        ],
{
    let l0 = spec_new_lexer(input);
    assert(lexer_wf(l0));
    assert(l0.ch == input[0] && is_digit_char(l0.ch));
    assert(!is_space_char(l0.ch) && l0.ch != '\0');
    assert(spec_skip(l0) == l0);
    lemma_skip_digits_to_end(l0);
    let l2 = spec_skip_digits(l0);
    let (t, lt) = spec_next_token(l0);
    assert(t == TokenV { kind: TokenKind::Integer, literal: input.subrange(0, input.len() as int) }
        && lt == l2);
    assert(input.subrange(0, input.len() as int) =~= input);
    assert(l2.ch == '\0' && !is_space_char(l2.ch));
    assert(spec_skip(l2) == l2);
    let (t2, lt2) = spec_next_token(l2);
    assert(t2 == TokenV { kind: TokenKind::Eof, literal: seq!['\0'] });
    assert(spec_tokens(l2) == seq![t2]);
    assert(spec_tokens(l0) == seq![t] + spec_tokens(l2));
    assert(spec_tokens(l0) =~= seq![t, t2]);
}

/// On input made of identifier characters only, skipping the identifier
/// run reaches the end of the input.
pub proof fn lemma_skip_letters_to_end(l: LexerV)
    requires
        lexer_wf(l),
        forall|i: int| l.position <= i < l.input.len() ==> is_letter_char(#[trigger] l.input[i]),
    ensures
        spec_skip_letters(l).position == l.input.len(),
        spec_skip_letters(l).input == l.input,
        lexer_wf(spec_skip_letters(l)),
    decreases l.input.len() - l.position,
{
    if is_letter_char(l.ch) {
        lemma_skip_letters_to_end(spec_read_char(l));
    } else {
        assert(l.position == l.input.len());
    }
}

/// A text of identifier characters alone scans as exactly one token —
/// its keyword kind, or a plain identifier — carrying the whole text,
/// then end-of-input.
pub proof fn lemma_tokens_of_letter_run(input: Seq<char>)
    requires
        1 <= input.len() <= usize::MAX - 2,
        forall|i: int| 0 <= i < input.len() ==> is_letter_char(#[trigger] input[i]),
    ensures
        spec_tokens(spec_new_lexer(input)) == seq![
            TokenV { kind: keyword_kind(input), literal: input },
            TokenV { kind: TokenKind::Eof, literal: seq!['\0'] },
        ],
{
    let l0 = spec_new_lexer(input);
    assert(lexer_wf(l0));
    assert(l0.ch == input[0] && is_letter_char(l0.ch));
    assert(!is_space_char(l0.ch) && l0.ch != '\0');
    assert(!is_digit_char(l0.ch) && l0.ch != '"');
    assert(spec_skip(l0) == l0);
    lemma_skip_letters_to_end(l0);
    let l2 = spec_skip_letters(l0);
    let (t, lt) = spec_next_token(l0);
    assert(t == TokenV {
        kind: keyword_kind(input.subrange(0, input.len() as int)),
        literal: input.subrange(0, input.len() as int),
    } && lt == l2);
    assert(input.subrange(0, input.len() as int) =~= input);
    assert(l2.ch == '\0' && !is_space_char(l2.ch));
    assert(spec_skip(l2) == l2);
    let (t2, lt2) = spec_next_token(l2);
    assert(t2 == TokenV { kind: TokenKind::Eof, literal: seq!['\0'] });
    assert(spec_tokens(l2) == seq![t2]);
    assert(keyword_kind(input) != TokenKind::Eof);
    assert(spec_tokens(l0) == seq![t] + spec_tokens(l2));
    assert(spec_tokens(l0) =~= seq![t, t2]);
}

impl Lexer {
    /// A tokenizer over `input`, its cursor loaded with the first
    /// character.
    pub fn new(input: String) -> (lexer: Lexer)
        requires
            input@.len() <= usize::MAX - 2,
        ensures
            lexer@ == spec_new_lexer(input@),
            lexer_wf(lexer@),
    {
        let mut lexer = Lexer { input, position: 0, read_position: 0, ch: '\0' };
        lexer.read_char();
        lexer
    }

    /// Advances the cursor one character: the current character becomes
    /// the one under the read cursor, the NUL sentinel past the end.
    pub fn read_char(&mut self)
        requires
            old(self)@.input.len() <= usize::MAX - 2,
        ensures
            final(self)@ == spec_read_char(old(self)@),
    {
        let len = self.input.as_str().unicode_len();
        if self.read_position >= len {
            self.ch = '\0';
        } else {
            self.ch = self.input.as_str().get_char(self.read_position);
        }
        if self.read_position <= len {
            self.position = self.read_position;
            self.read_position = self.read_position + 1;
        }
    }

    /// Skips blank space.
    #[verifier::loop_isolation(false)]
    fn skip(&mut self)
        requires
            lexer_wf(old(self)@),
        ensures
            final(self)@ == spec_skip(old(self)@),
            lexer_wf(final(self)@),
    {
        while self.ch == ' ' || self.ch == '\t' || self.ch == '\r' || self.ch == '\n'
            invariant
                lexer_wf(self@),
                spec_skip(self@) == spec_skip(old(self)@),
            decreases self@.input.len() - self@.position,
        {
            self.read_char();
        }
    }

    /// The character one past the read cursor, without advancing.
    fn peek_char(&self) -> (c: char)
        requires
            lexer_wf(self@),
        ensures
            c == spec_peek(self@),
    {
        let len = self.input.as_str().unicode_len();
        if self.read_position + 1 >= len {
            return '\0';
        }
        self.input.as_str().get_char(self.read_position)
    }

    /// The one-character literal under the cursor.
    fn current_char_string(&self) -> (r: String)
        requires
            lexer_wf(self@),
            self@.position < self@.input.len(),
        ensures
            r@ == seq![self@.ch],
    {
        let r = self.input.as_str().substring_char(self.position, self.position + 1).to_owned();
        proof {
            assert(r@ =~= seq![self@.ch]);
        }
        r
    }

    /// Reads the maximal run of decimal digits starting at the cursor.
    #[verifier::loop_isolation(false)]
    fn read_integer(&mut self) -> (r: String)
        requires
            lexer_wf(old(self)@),
        ensures
            final(self)@ == spec_skip_digits(old(self)@),
            lexer_wf(final(self)@),
            r@ == old(self)@.input.subrange(old(self)@.position as int, final(self)@.position as int),
    {
        let start = self.position;
        while self.ch >= '0' && self.ch <= '9'
            invariant
                lexer_wf(self@),
                spec_skip_digits(self@) == spec_skip_digits(old(self)@),
                self@.input == old(self)@.input,
                start == old(self)@.position,
                start <= self@.position,
            decreases self@.input.len() - self@.position,
        {
            self.read_char();
        }
        self.input.as_str().substring_char(start, self.position).to_owned()
    }

    /// Reads the maximal run of identifier characters starting at the
    /// cursor.
    #[verifier::loop_isolation(false)]
    fn read_identifier(&mut self) -> (r: String)
        requires
            lexer_wf(old(self)@),
        ensures
            final(self)@ == spec_skip_letters(old(self)@),
            lexer_wf(final(self)@),
            r@ == old(self)@.input.subrange(old(self)@.position as int, final(self)@.position as int),
    {
        let start = self.position;
        while (self.ch >= 'a' && self.ch <= 'z') || (self.ch >= 'A' && self.ch <= 'Z') || self.ch
            == '_'
            invariant
                lexer_wf(self@),
                spec_skip_letters(self@) == spec_skip_letters(old(self)@),
                self@.input == old(self)@.input,
                start == old(self)@.position,
                start <= self@.position,
            decreases self@.input.len() - self@.position,
        {
            self.read_char();
        }
        self.input.as_str().substring_char(start, self.position).to_owned()
    }

    /// Reads the contents of a string literal: the characters after the
    /// opening quote up to the closing quote or the end of the input.
    #[verifier::loop_isolation(false)]
    fn read_string(&mut self) -> (r: String)
        requires
            lexer_wf(old(self)@),
            old(self)@.position < old(self)@.input.len(),
        ensures
            final(self)@ == spec_skip_string(spec_read_char(old(self)@)),
            lexer_wf(final(self)@),
            r@ == old(self)@.input.subrange(
                old(self)@.position + 1int,
                final(self)@.position as int,
            ),
    {
        let start = self.position + 1;
        self.read_char();
        while !(self.ch == '"' || self.ch == '\0')
            invariant
                lexer_wf(self@),
                spec_skip_string(self@) == spec_skip_string(spec_read_char(old(self)@)),
                self@.input == old(self)@.input,
                start == old(self)@.position + 1int,
                start <= self@.position,
            decreases self@.input.len() - self@.position,
        {
            self.read_char();
        }
        self.input.as_str().substring_char(start, self.position).to_owned()
    }

    /// Scans and returns the next token: blank space skipped, the token
    /// classified by its first character, keywords told apart from
    /// identifiers, and end-of-input yielded forever once reached.
    pub fn next_token(&mut self) -> (token: Token)
        requires
            lexer_wf(old(self)@),
        ensures
            token@ == spec_next_token(old(self)@).0,
            final(self)@ == spec_next_token(old(self)@).1,
            lexer_wf(final(self)@),
    {
        self.skip();
        let token: Token;
        if self.ch == '=' {
            if self.peek_char() == '=' {
                self.read_char();
                token = Token { kind: TokenKind::Eq, literal: String::from_str("==") };
            } else {
                token = Token { kind: TokenKind::Assign, literal: self.current_char_string() };
            }
        } else if self.ch == '+' {
            token = Token { kind: TokenKind::Plus, literal: self.current_char_string() };
        } else if self.ch == '-' {
            token = Token { kind: TokenKind::Minus, literal: self.current_char_string() };
        } else if self.ch == '*' {
            token = Token { kind: TokenKind::Asterisk, literal: self.current_char_string() };
        } else if self.ch == '/' {
            token = Token { kind: TokenKind::Slash, literal: self.current_char_string() };
        } else if self.ch == '!' {
            if self.peek_char() == '=' {
                self.read_char();
                token = Token { kind: TokenKind::NotEq, literal: String::from_str("!=") };
            } else {
                token = Token { kind: TokenKind::Bang, literal: self.current_char_string() };
            }
        } else if self.ch == '<' {
            token = Token { kind: TokenKind::Lt, literal: self.current_char_string() };
        } else if self.ch == '>' {
            token = Token { kind: TokenKind::Gt, literal: self.current_char_string() };
        } else if self.ch == ';' {
            token = Token { kind: TokenKind::Semicolon, literal: self.current_char_string() };
        } else if self.ch == ',' {
            token = Token { kind: TokenKind::Comma, literal: self.current_char_string() };
        } else if self.ch == '(' {
            token = Token { kind: TokenKind::Lparen, literal: self.current_char_string() };
        } else if self.ch == ')' {
            token = Token { kind: TokenKind::Rparen, literal: self.current_char_string() };
        } else if self.ch == '{' {
            token = Token { kind: TokenKind::Lbrace, literal: self.current_char_string() };
        } else if self.ch == '}' {
            token = Token { kind: TokenKind::Rbrace, literal: self.current_char_string() };
        } else if self.ch == '[' {
            token = Token { kind: TokenKind::Lbracket, literal: self.current_char_string() };
        } else if self.ch == ']' {
            token = Token { kind: TokenKind::Rbracket, literal: self.current_char_string() };
        } else if self.ch >= '0' && self.ch <= '9' {
            return Token { kind: TokenKind::Integer, literal: self.read_integer() };
        } else if (self.ch >= 'a' && self.ch <= 'z') || (self.ch >= 'A' && self.ch <= 'Z')
            || self.ch == '_' {
            let ident = self.read_identifier();
            if str_eq(ident.as_str(), "let") {
                return Token { kind: TokenKind::Let, literal: ident };
            } else if str_eq(ident.as_str(), "fn") {
                return Token { kind: TokenKind::Function, literal: ident };
            } else if str_eq(ident.as_str(), "if") {
                return Token { kind: TokenKind::If, literal: ident };
            } else if str_eq(ident.as_str(), "else") {
                return Token { kind: TokenKind::Else, literal: ident };
            } else if str_eq(ident.as_str(), "return") {
                return Token { kind: TokenKind::Return, literal: ident };
            } else if str_eq(ident.as_str(), "true") {
                return Token { kind: TokenKind::True, literal: ident };
            } else if str_eq(ident.as_str(), "false") {
                return Token { kind: TokenKind::False, literal: ident };
            }
            return Token { kind: TokenKind::Identifier, literal: ident };
        } else if self.ch == '"' {
            token = Token { kind: TokenKind::String, literal: self.read_string() };
        } else if self.ch == '\0' {
            let literal = "\0".to_owned();
            proof {
                reveal_strlit("\0");
                assert(literal@ =~= seq!['\0']);
            }
            return Token { kind: TokenKind::Eof, literal };
        } else {
            token = Token { kind: TokenKind::Illegal, literal: self.current_char_string() };
        }
        self.read_char();
        token
    }
}

} // verus!
