//! The scanner: character classes, a model of one scanning step over a
//! character sequence, and the `Lexer` that is proved to follow it.
use crate::token::{push_char, Token, TokenView};
use vstd::prelude::*;

verus! {

// ---------------------------------------------------------------------------
// Character classes
// ---------------------------------------------------------------------------
/// Whitespace that separates lexemes.
pub open spec fn whitespace(c: char) -> bool {
    c == ' ' || c == '\t' || c == '\r' || c == '\n'
}

pub open spec fn decimal_digit(c: char) -> bool {
    '0' <= c && c <= '9'
}

pub open spec fn is_ascii_letter(c: char) -> bool {
    ('a' <= c && c <= 'z') || ('A' <= c && c <= 'Z')
}

/// Whether `char::is_alphabetic` holds of `c` (the Unicode Alphabetic property).
pub uninterp spec fn alphabetic(c: char) -> bool;

/// A character that may start or continue an identifier: an underscore, an
/// ASCII letter, or a non-ASCII character with the Unicode Alphabetic property.
pub open spec fn ident_char(c: char) -> bool {
    c == '_' || if (c as u32) < 128 {
        is_ascii_letter(c)
    } else {
        alphabetic(c)
    }
}

/// The character under the cursor, or the NUL sentinel past the end.
pub open spec fn char_at(s: Seq<char>, i: int) -> char {
    if 0 <= i < s.len() {
        s[i]
    } else {
        '\0'
    }
}

// ---------------------------------------------------------------------------
// Scanning model
// ---------------------------------------------------------------------------
/// The first index at or after `i` that is not whitespace (or `i` itself when
/// it lies outside the text).
pub open spec fn skip_spaces(s: Seq<char>, i: int) -> int
    decreases s.len() - i,
{
    if 0 <= i < s.len() && whitespace(s[i]) {
        skip_spaces(s, i + 1)
    } else {
        i
    }
}

/// End of the maximal run of identifier characters that starts at `i`.
pub open spec fn ident_end(s: Seq<char>, i: int) -> int
    decreases s.len() - i,
{
    if 0 <= i < s.len() && ident_char(s[i]) {
        ident_end(s, i + 1)
    } else {
        i
    }
}

/// End of the maximal run of decimal digits that starts at `i`.
pub open spec fn digits_end(s: Seq<char>, i: int) -> int
    decreases s.len() - i,
{
    if 0 <= i < s.len() && decimal_digit(s[i]) {
        digits_end(s, i + 1)
    } else {
        i
    }
}

/// Index of the first `"` at or after `i`, or the length of the text.
pub open spec fn quote_at_or_after(s: Seq<char>, i: int) -> int
    decreases s.len() - i,
{
    if 0 <= i < s.len() && s[i] != '"' {
        quote_at_or_after(s, i + 1)
    } else {
        i
    }
}

/// The base-10 value of a sequence of decimal digits.
pub open spec fn digits_value(d: Seq<char>) -> int
    decreases d.len(),
{
    if d.len() == 0 {
        0
    } else {
        10 * digits_value(d.drop_last()) + ((d.last() as u32) as int - 48)
    }
}

/// The keyword token spelled by `w`, if `w` is a reserved word.
pub open spec fn keyword(w: Seq<char>) -> Option<TokenView> {
    if w == seq!['l', 'e', 't'] {
        Some(TokenView::Let)
    } else if w == seq!['f', 'n'] {
        Some(TokenView::Fn)
    } else if w == seq!['t', 'r', 'u', 'e'] {
        Some(TokenView::Bool(true))
    } else if w == seq!['f', 'a', 'l', 's', 'e'] {
        Some(TokenView::Bool(false))
    } else if w == seq!['i', 'f'] {
        Some(TokenView::If)
    } else if w == seq!['e', 'l', 's', 'e'] {
        Some(TokenView::Else)
    } else if w == seq!['r', 'e', 't', 'u', 'r', 'n'] {
        Some(TokenView::Ret)
    } else {
        None
    }
}

/// The token of a maximal identifier run: its keyword, or an identifier.
pub open spec fn word_token(w: Seq<char>) -> TokenView {
    match keyword(w) {
        Some(t) => t,
        None => TokenView::Ident(w),
    }
}

/// The token of a one-character operator or delimiter.
pub open spec fn single_char(c: char) -> Option<TokenView> {
    if c == '=' {
        Some(TokenView::Assign)
    } else if c == '!' {
        Some(TokenView::Bang)
    } else if c == '-' {
        Some(TokenView::Minus)
    } else if c == '/' {
        Some(TokenView::Slash)
    } else if c == '*' {
        Some(TokenView::Asterisk)
    } else if c == '<' {
        Some(TokenView::LT)
    } else if c == '>' {
        Some(TokenView::GT)
    } else if c == ';' {
        Some(TokenView::Semicolon)
    } else if c == '(' {
        Some(TokenView::LParen)
    } else if c == ')' {
        Some(TokenView::RParen)
    } else if c == '[' {
        Some(TokenView::LBracket)
    } else if c == ']' {
        Some(TokenView::RBracket)
    } else if c == ':' {
        Some(TokenView::Colon)
    } else if c == ',' {
        Some(TokenView::Comma)
    } else if c == '+' {
        Some(TokenView::Plus)
    } else if c == '{' {
        Some(TokenView::LBrace)
    } else if c == '}' {
        Some(TokenView::RBrace)
    } else {
        None
    }
}

/// Whether `==` or `!=` starts at `i`.
pub open spec fn two_char_op_at(s: Seq<char>, i: int) -> bool {
    0 <= i && i + 1 < s.len() && (s[i] == '=' || s[i] == '!') && s[i + 1] == '='
}

/// The outcome of scanning the lexeme that starts at `start`, and the index
/// just after it. Requires `start` to be inside the text.
pub open spec fn lexeme(s: Seq<char>, start: int) -> (Result<TokenView, LexError>, int) {
    let c = s[start];
    if two_char_op_at(s, start) {
        (Ok(if c == '=' { TokenView::Eq } else { TokenView::NotEq }), start + 2)
    } else if single_char(c) is Some {
        (Ok(single_char(c)->0), start + 1)
    } else if ident_char(c) {
        let end = ident_end(s, start);
        (Ok(word_token(s.subrange(start, end))), end)
    } else if decimal_digit(c) {
        let end = digits_end(s, start);
        let v = digits_value(s.subrange(start, end));
        (if v <= i32::MAX { Ok(TokenView::Integer(v as i32)) } else { Err(LexError::IntegerOverflow) }, end)
    } else if c == '"' {
        let close = quote_at_or_after(s, start + 1);
        if close < s.len() {
            (Ok(TokenView::Str(s.subrange(start + 1, close))), close + 1)
        } else {
            (Ok(TokenView::Illegal), s.len() as int)
        }
    } else {
        (Ok(TokenView::Illegal), start + 1)
    }
}

/// One call of the scanner from cursor `pos`: whitespace is skipped, then
/// either the end-marker is produced (the cursor stays at the end) or the
/// next lexeme is scanned.
pub open spec fn step(s: Seq<char>, pos: int) -> (Result<TokenView, LexError>, int) {
    let start = skip_spaces(s, pos);
    if start < s.len() {
        lexeme(s, start)
    } else {
        (Ok(TokenView::EOF), start)
    }
}

/// Whether the next lexeme from `pos` is a digit run too large for `i32`.
pub open spec fn overflows(s: Seq<char>, pos: int) -> bool {
    let start = skip_spaces(s, pos);
    &&& 0 <= start < s.len()
    &&& decimal_digit(s[start])
    &&& digits_value(s.subrange(start, digits_end(s, start))) > i32::MAX
}

pub open spec fn result_view(r: Result<Token, LexError>) -> Result<TokenView, LexError> {
    match r {
        Ok(t) => Ok(t@),
        Err(e) => Err(e),
    }
}

pub open spec fn option_view(o: Option<Token>) -> Option<TokenView> {
    match o {
        Some(t) => Some(t@),
        None => None,
    }
}

/// The error of a scan that cannot produce a token.
#[derive(Debug, Clone, Copy, PartialEq, Eq, Structural)]
pub enum LexError {
    /// A run of decimal digits whose value exceeds `i32::MAX`.
    IntegerOverflow,
}

/// The skipped prefix is whitespace and stops on a non-whitespace character
/// or at the end.
pub proof fn lemma_skip_spaces(s: Seq<char>, i: int)
    requires
        0 <= i <= s.len(),
    ensures
        i <= skip_spaces(s, i) <= s.len(),
        skip_spaces(s, i) < s.len() ==> !whitespace(s[skip_spaces(s, i)]),
        forall|k: int| i <= k < skip_spaces(s, i) ==> whitespace(#[trigger] s[k]),
    decreases s.len() - i,
{
    if i < s.len() && whitespace(s[i]) {
        lemma_skip_spaces(s, i + 1);
    }
}

/// The identifier run is made of identifier characters and is maximal.
pub proof fn lemma_ident_end(s: Seq<char>, i: int)
    requires
        0 <= i <= s.len(),
    ensures
        i <= ident_end(s, i) <= s.len(),
        ident_end(s, i) < s.len() ==> !ident_char(s[ident_end(s, i)]),
        forall|k: int| i <= k < ident_end(s, i) ==> ident_char(#[trigger] s[k]),
    decreases s.len() - i,
{
    if i < s.len() && ident_char(s[i]) {
        lemma_ident_end(s, i + 1);
    }
}

/// The digit run is made of digits and is maximal.
pub proof fn lemma_digits_end(s: Seq<char>, i: int)
    requires
        0 <= i <= s.len(),
    ensures
        i <= digits_end(s, i) <= s.len(),
        digits_end(s, i) < s.len() ==> !decimal_digit(s[digits_end(s, i)]),
        forall|k: int| i <= k < digits_end(s, i) ==> decimal_digit(#[trigger] s[k]),
    decreases s.len() - i,
{
    if i < s.len() && decimal_digit(s[i]) {
        lemma_digits_end(s, i + 1);
    }
}

/// No quote lies before the one found, if one is found.
pub proof fn lemma_quote_at_or_after(s: Seq<char>, i: int)
    requires
        0 <= i <= s.len(),
    ensures
        i <= quote_at_or_after(s, i) <= s.len(),
        quote_at_or_after(s, i) < s.len() ==> s[quote_at_or_after(s, i)] == '"',
        forall|k: int| i <= k < quote_at_or_after(s, i) ==> #[trigger] s[k] != '"',
    decreases s.len() - i,
{
    if i < s.len() && s[i] != '"' {
        lemma_quote_at_or_after(s, i + 1);
    }
}

/// A scan fails exactly on a digit run too large for an `i32`.
pub proof fn lemma_overflow_is_only_error(s: Seq<char>, pos: int)
    requires
        0 <= pos <= s.len(),
    ensures
        step(s, pos).0 is Err <==> overflows(s, pos),
{
    lemma_skip_spaces(s, pos);
    let start = skip_spaces(s, pos);
    if start < s.len() && decimal_digit(s[start]) {
        assert(!ident_char(s[start]));
    }
}

/// Relies on `char::is_alphabetic`: whether `c` has the Unicode Alphabetic
/// property, which depends on the character alone.
#[verifier::external_body]
fn is_alphabetic(c: char) -> (r: bool)
    ensures
        r == alphabetic(c),
{
    c.is_alphabetic()
}

fn is_letter(c: char) -> (r: bool)
    ensures
        r == ident_char(c),
{
    if c == '_' {
        true
    } else if (c as u32) < 128 {
        ('a' <= c && c <= 'z') || ('A' <= c && c <= 'Z')
    } else {
        is_alphabetic(c)
    }
}

fn single_char_token(c: char) -> (r: Option<Token>)
    ensures
        option_view(r) == single_char(c),
{
    match c {
        '=' => Some(Token::Assign),
        '!' => Some(Token::Bang),
        '-' => Some(Token::Minus),
        '/' => Some(Token::Slash),
        '*' => Some(Token::Asterisk),
        '<' => Some(Token::LT),
        '>' => Some(Token::GT),
        ';' => Some(Token::Semicolon),
        '(' => Some(Token::LParen),
        ')' => Some(Token::RParen),
        '[' => Some(Token::LBracket),
        ']' => Some(Token::RBracket),
        ':' => Some(Token::Colon),
        ',' => Some(Token::Comma),
        '+' => Some(Token::Plus),
        '{' => Some(Token::LBrace),
        '}' => Some(Token::RBrace),
        _ => None,
    }
}

/// The keyword token spelled by `word`, if it is a reserved word.
fn keyword_token(word: &String) -> (r: Option<Token>)
    ensures
        option_view(r) == keyword(word@),
{
    proof {
        reveal_strlit("let");
        reveal_strlit("fn");
        reveal_strlit("true");
        reveal_strlit("false");
        reveal_strlit("if");
        reveal_strlit("else");
        reveal_strlit("return");
        assert("let"@ =~= seq!['l', 'e', 't']);
        assert("fn"@ =~= seq!['f', 'n']);
        assert("true"@ =~= seq!['t', 'r', 'u', 'e']);
        assert("false"@ =~= seq!['f', 'a', 'l', 's', 'e']);
        assert("if"@ =~= seq!['i', 'f']);
        assert("else"@ =~= seq!['e', 'l', 's', 'e']);
        assert("return"@ =~= seq!['r', 'e', 't', 'u', 'r', 'n']);
    }
    if *word == String::from_str("let") {
        Some(Token::Let)
    } else if *word == String::from_str("fn") {
        Some(Token::Fn)
    } else if *word == String::from_str("true") {
        Some(Token::Bool(true))
    } else if *word == String::from_str("false") {
        Some(Token::Bool(false))
    } else if *word == String::from_str("if") {
        Some(Token::If)
    } else if *word == String::from_str("else") {
        Some(Token::Else)
    } else if *word == String::from_str("return") {
        Some(Token::Ret)
    } else {
        None
    }
}

fn is_whitespace(c: char) -> (r: bool)
    ensures
        r == whitespace(c),
{
    c == ' ' || c == '\t' || c == '\r' || c == '\n'
}

fn is_digit(c: char) -> (r: bool)
    ensures
        r == decimal_digit(c),
{
    '0' <= c && c <= '9'
}

/// A scanner over a fully materialized text. The cursor never moves past the
/// end; once there, the current character is the NUL sentinel.
pub struct Lexer {
    input: Vec<char>,
    position: usize,
    ch: char,
}

impl Lexer {
    /// The text being scanned.
    pub closed spec fn source(&self) -> Seq<char> {
        self.input@
    }

    /// The index of the current character.
    pub closed spec fn cursor(&self) -> int {
        self.position as int
    }

    pub closed spec fn wf(&self) -> bool {
        &&& self.position <= self.input.len()
        &&& self.ch == char_at(self.input@, self.position as int)
    }

    /// A scanner positioned on the first character of `input`.
    pub fn new(input: &str) -> (r: Lexer)
        ensures
            r.wf(),
            r.source() == input@,
            r.cursor() == 0,
    {
        let mut chars: Vec<char> = Vec::new();
        for c in it: input.chars()
            invariant
                chars@ == it.seq().take(it.index() as int),
        {
            chars.push(c);
        }
        let ch = if chars.len() > 0 {
            chars[0]
        } else {
            '\0'
        };
        Lexer { input: chars, position: 0, ch }
    }

    /// Moves one character forward, unless the cursor is already at the end.
    fn read_char(&mut self)
        requires
            old(self).wf(),
        ensures
            final(self).wf(),
            final(self).input@ == old(self).input@,
            final(self).position == if old(self).position < old(self).input.len() {
                old(self).position + 1
            } else {
                old(self).position as int
            },
    {
        if self.position < self.input.len() {
            self.position = self.position + 1;
            self.ch = if self.position < self.input.len() {
                self.input[self.position]
            } else {
                '\0'
            };
        }
    }

    /// The character after the current one, without moving.
    fn peek_char(&self) -> (r: char)
        requires
            self.wf(),
        ensures
            r == char_at(self.input@, self.position + 1),
    {
        if self.position < self.input.len() && self.position + 1 < self.input.len() {
            self.input[self.position + 1]
        } else {
            '\0'
        }
    }

    fn skip_whitespace(&mut self)
        requires
            old(self).wf(),
        ensures
            final(self).wf(),
            final(self).input@ == old(self).input@,
            final(self).position == skip_spaces(old(self).input@, old(self).position as int),
    {
        while self.position < self.input.len() && is_whitespace(self.ch)
            invariant
                self.wf(),
                self.input@ == old(self).input@,
                skip_spaces(self.input@, self.position as int) == skip_spaces(
                    old(self).input@,
                    old(self).position as int,
                ),
            decreases self.input.len() - self.position,
        {
            self.read_char();
        }
    }

    /// Consumes the maximal run of identifier characters under the cursor
    /// and returns it.
    fn read_identifier(&mut self) -> (r: String)
        requires
            old(self).wf(),
        ensures
            final(self).wf(),
            final(self).input@ == old(self).input@,
            final(self).position == ident_end(old(self).input@, old(self).position as int),
            r@ == old(self).input@.subrange(old(self).position as int, final(self).position as int),
    {
        let start = self.position;
        let mut word = String::new();
        while self.position < self.input.len() && is_letter(self.ch)
            invariant
                self.wf(),
                self.input@ == old(self).input@,
                start == old(self).position,
                start <= self.position,
                word@ == self.input@.subrange(start as int, self.position as int),
                ident_end(self.input@, self.position as int) == ident_end(self.input@, start as int),
            decreases self.input.len() - self.position,
        {
            push_char(&mut word, self.ch);
            self.read_char();
            assert(word@ =~= self.input@.subrange(start as int, self.position as int));
        }
        word
    }

    /// Consumes the maximal run of decimal digits under the cursor and
    /// returns its value, or `None` when it does not fit in an `i32`.
    fn read_numeric(&mut self) -> (r: Option<i32>)
        requires
            old(self).wf(),
        ensures
            final(self).wf(),
            final(self).input@ == old(self).input@,
            final(self).position == digits_end(old(self).input@, old(self).position as int),
            ({
                let v = digits_value(
                    old(self).input@.subrange(old(self).position as int, final(self).position as int),
                );
                r == if v <= i32::MAX { Some(v as i32) } else { None::<i32> }
            }),
    {
        let start = self.position;
        let mut value: i32 = 0;
        let mut fits = true;
        while self.position < self.input.len() && is_digit(self.ch)
            invariant
                self.wf(),
                self.input@ == old(self).input@,
                start == old(self).position,
                start <= self.position,
                digits_end(self.input@, self.position as int) == digits_end(self.input@, start as int),
                0 <= value,
                fits ==> value == digits_value(self.input@.subrange(start as int, self.position as int)),
                !fits ==> digits_value(self.input@.subrange(start as int, self.position as int)) > i32::MAX,
            decreases self.input.len() - self.position,
        {
            let ghost before = self.input@.subrange(start as int, self.position as int);
            let d = (self.ch as u32 - 48) as i64;
            let next = value as i64 * 10 + d;
            if next > i32::MAX as i64 {
                fits = false;
            } else {
                value = next as i32;
            }
            self.read_char();
            let ghost after = self.input@.subrange(start as int, self.position as int);
            assert(after.drop_last() =~= before);
        }
        if fits {
            Some(value)
        } else {
            None
        }
    }

    /// Consumes a string literal whose opening quote is under the cursor and
    /// returns the text between the quotes; `None` when no closing quote
    /// follows, in which case the rest of the text is consumed.
    fn read_string(&mut self) -> (r: Option<String>)
        requires
            old(self).wf(),
            old(self).position < old(self).input.len(),
        ensures
            final(self).wf(),
            final(self).input@ == old(self).input@,
            ({
                let s = old(self).input@;
                let close = quote_at_or_after(s, old(self).position + 1);
                if close < s.len() {
                    &&& final(self).position == close + 1
                    &&& r is Some
                    &&& r->0@ == s.subrange(old(self).position + 1, close)
                } else {
                    &&& final(self).position == s.len()
                    &&& r is None
                }
            }),
    {
        self.read_char();
        let start = self.position;
        let mut text = String::new();
        while self.position < self.input.len() && self.ch != '"'
            invariant
                self.wf(),
                self.input@ == old(self).input@,
                start == old(self).position + 1,
                start <= self.position,
                text@ == self.input@.subrange(start as int, self.position as int),
                quote_at_or_after(self.input@, self.position as int) == quote_at_or_after(
                    self.input@,
                    start as int,
                ),
            decreases self.input.len() - self.position,
        {
            push_char(&mut text, self.ch);
            self.read_char();
            assert(text@ =~= self.input@.subrange(start as int, self.position as int));
        }
        if self.position < self.input.len() {
            self.read_char();
            Some(text)
        } else {
            None
        }
    }


    /// Produces the next token, or an error for a digit run that does not fit
    /// in an `i32` (the run is consumed and scanning can go on).
    pub fn try_next_token(&mut self) -> (r: Result<Token, LexError>)
        requires
            old(self).wf(),
        ensures
            final(self).wf(),
            final(self).source() == old(self).source(),
            result_view(r) == step(old(self).source(), old(self).cursor()).0,
            final(self).cursor() == step(old(self).source(), old(self).cursor()).1,
    {
        self.skip_whitespace();
        if self.position >= self.input.len() {
            return Ok(Token::EOF);
        }
        let c = self.ch;
        if (c == '=' || c == '!') && self.peek_char() == '=' {
            self.read_char();
            self.read_char();
            return Ok(
                if c == '=' {
                    Token::Eq
                } else {
                    Token::NotEq
                },
            );
        }
        if let Some(t) = single_char_token(c) {
            self.read_char();
            return Ok(t);
        }
        if is_letter(c) {
            let word = self.read_identifier();
            return Ok(
                match keyword_token(&word) {
                    Some(t) => t,
                    None => Token::Ident(word),
                },
            );
        }
        if is_digit(c) {
            return match self.read_numeric() {
                Some(n) => Ok(Token::Integer(n)),
                None => Err(LexError::IntegerOverflow),
            };
        }
        if c == '"' {
            return Ok(
                match self.read_string() {
                    Some(text) => Token::String(text),
                    None => Token::Illegal,
                },
            );
        }
        self.read_char();
        Ok(Token::Illegal)
    }

    /// Produces the next token. Once the end of the text is reached, every
    /// call returns the end-marker.
    pub fn next_token(&mut self) -> (r: Token)
        requires
            old(self).wf(),
            !overflows(old(self).source(), old(self).cursor()),
        ensures
            final(self).wf(),
            final(self).source() == old(self).source(),
            step(old(self).source(), old(self).cursor()).0 == Ok::<TokenView, LexError>(r@),
            final(self).cursor() == step(old(self).source(), old(self).cursor()).1,
    {
        proof {
            lemma_overflow_is_only_error(self.source(), self.cursor());
        }
        match self.try_next_token() {
            Ok(t) => t,
            Err(_) => {
                proof {
                    assert(false);
                }
                Token::Illegal
            },
        }
    }

}

} // verus!
