use vstd::prelude::*;

verus! {

/// A classified unit of source text.
#[derive(Debug, PartialEq, Clone)]
pub enum Token {
    Illegal,
    EOF,
    // identifiers and literals
    Ident(String),
    Integer(i32),
    Bool(bool),
    String(String),
    // operators
    Assign,
    Plus,
    Minus,
    Bang,
    Asterisk,
    Slash,
    Eq,
    NotEq,
    LT,
    GT,
    // delimiters
    Comma,
    Semicolon,
    Colon,
    LParen,
    RParen,
    LBrace,
    RBrace,
    LBracket,
    RBracket,
    // keywords
    Fn,
    Let,
    If,
    Else,
    Ret,
}

/// The mathematical value of a token: text payloads are character sequences.
pub enum TokenView {
    Illegal,
    EOF,
    Ident(Seq<char>),
    Integer(i32),
    Bool(bool),
    Str(Seq<char>),
    Assign,
    Plus,
    Minus,
    Bang,
    Asterisk,
    Slash,
    Eq,
    NotEq,
    LT,
    GT,
    Comma,
    Semicolon,
    Colon,
    LParen,
    RParen,
    LBrace,
    RBrace,
    LBracket,
    RBracket,
    Fn,
    Let,
    If,
    Else,
    Ret,
}

impl View for Token {
    type V = TokenView;

    open spec fn view(&self) -> TokenView {
        match self {
            Token::Illegal => TokenView::Illegal,
            Token::EOF => TokenView::EOF,
            Token::Ident(s) => TokenView::Ident(s@),
            Token::Integer(n) => TokenView::Integer(*n),
            Token::Bool(b) => TokenView::Bool(*b),
            Token::String(s) => TokenView::Str(s@),
            Token::Assign => TokenView::Assign,
            Token::Plus => TokenView::Plus,
            Token::Minus => TokenView::Minus,
            Token::Bang => TokenView::Bang,
            Token::Asterisk => TokenView::Asterisk,
            Token::Slash => TokenView::Slash,
            Token::Eq => TokenView::Eq,
            Token::NotEq => TokenView::NotEq,
            Token::LT => TokenView::LT,
            Token::GT => TokenView::GT,
            Token::Comma => TokenView::Comma,
            Token::Semicolon => TokenView::Semicolon,
            Token::Colon => TokenView::Colon,
            Token::LParen => TokenView::LParen,
            Token::RParen => TokenView::RParen,
            Token::LBrace => TokenView::LBrace,
            Token::RBrace => TokenView::RBrace,
            Token::LBracket => TokenView::LBracket,
            Token::RBracket => TokenView::RBracket,
            Token::Fn => TokenView::Fn,
            Token::Let => TokenView::Let,
            Token::If => TokenView::If,
            Token::Else => TokenView::Else,
            Token::Ret => TokenView::Ret,
        }
    }
}

/// The decimal digits of a natural number, most significant first.
pub open spec fn decimal_digits(n: nat) -> Seq<char>
    decreases n,
{
    if n < 10 {
        seq![digit_char(n)]
    } else {
        decimal_digits(n / 10).push(digit_char(n % 10))
    }
}

pub open spec fn digit_char(d: nat) -> char {
    ((d % 10) as u32 + '0' as u32) as char
}

/// The decimal text of a signed integer, with a leading `-` when negative.
pub open spec fn decimal_text(n: int) -> Seq<char> {
    if n < 0 {
        seq!['-'] + decimal_digits((-n) as nat)
    } else {
        decimal_digits(n as nat)
    }
}

/// Relies on `String::push`: appends one character.
#[verifier::external_body]
pub(crate) fn push_char(s: &mut String, c: char)
    ensures
        final(s)@ == old(s)@.push(c),
{
    s.push(c)
}

fn push_decimal(n: u32, out: &mut String)
    ensures
        final(out)@ == old(out)@ + decimal_digits(n as nat),
    decreases n,
{
    let ghost before = out@;
    if n >= 10 {
        push_decimal(n / 10, out);
    }
    let d = (n % 10) as u8;
    push_char(out, (d + 48u8) as char);
    assert(out@ =~= before + decimal_digits(n as nat));
}

/// The canonical printable form of a token: literals show their value,
/// operators, delimiters and keywords their source spelling, and the two
/// markers a label.
pub open spec fn display(t: TokenView) -> Seq<char> {
    match t {
        TokenView::Illegal => "Illegal"@,
        TokenView::EOF => "EOF"@,
        TokenView::Ident(w) => w,
        TokenView::Integer(n) => decimal_text(n as int),
        TokenView::Bool(b) => if b { "true"@ } else { "false"@ },
        TokenView::Str(text) => text,
        TokenView::Assign => "="@,
        TokenView::Plus => "+"@,
        TokenView::Minus => "-"@,
        TokenView::Bang => "!"@,
        TokenView::Asterisk => "*"@,
        TokenView::Slash => "/"@,
        TokenView::Eq => "=="@,
        TokenView::NotEq => "!="@,
        TokenView::LT => "<"@,
        TokenView::GT => ">"@,
        TokenView::Comma => ","@,
        TokenView::Semicolon => ";"@,
        TokenView::Colon => ":"@,
        TokenView::LParen => "("@,
        TokenView::RParen => ")"@,
        TokenView::LBrace => "{"@,
        TokenView::RBrace => "}"@,
        TokenView::LBracket => "["@,
        TokenView::RBracket => "]"@,
        TokenView::Fn => "fn"@,
        TokenView::Let => "let"@,
        TokenView::If => "if"@,
        TokenView::Else => "else"@,
        TokenView::Ret => "return"@,
    }
}

impl Token {
    /// The printable form of the token.
    pub fn text(&self) -> (r: String)
        ensures
            r@ == display(self@),
    {
        match self {
            Token::Illegal => String::from_str("Illegal"),
            Token::EOF => String::from_str("EOF"),
            Token::Ident(w) => w.clone(),
            Token::Integer(n) => integer_text(*n),
            Token::Bool(b) => if *b {
                String::from_str("true")
            } else {
                String::from_str("false")
            },
            Token::String(text) => text.clone(),
            Token::Assign => String::from_str("="),
            Token::Plus => String::from_str("+"),
            Token::Minus => String::from_str("-"),
            Token::Bang => String::from_str("!"),
            Token::Asterisk => String::from_str("*"),
            Token::Slash => String::from_str("/"),
            Token::Eq => String::from_str("=="),
            Token::NotEq => String::from_str("!="),
            Token::LT => String::from_str("<"),
            Token::GT => String::from_str(">"),
            Token::Comma => String::from_str(","),
            Token::Semicolon => String::from_str(";"),
            Token::Colon => String::from_str(":"),
            Token::LParen => String::from_str("("),
            Token::RParen => String::from_str(")"),
            Token::LBrace => String::from_str("{"),
            Token::RBrace => String::from_str("}"),
            Token::LBracket => String::from_str("["),
            Token::RBracket => String::from_str("]"),
            Token::Fn => String::from_str("fn"),
            Token::Let => String::from_str("let"),
            Token::If => String::from_str("if"),
            Token::Else => String::from_str("else"),
            Token::Ret => String::from_str("return"),
        }
    }
}

/// The decimal text of `n`.
pub fn integer_text(n: i32) -> (r: String)
    ensures
        r@ == decimal_text(n as int),
{
    let mut out = String::new();
    if n < 0 {
        push_char(&mut out, '-');
        let magnitude = (-(n as i64)) as u32;
        push_decimal(magnitude, &mut out);
    } else {
        push_decimal(n as u32, &mut out);
    }
    out
}

} // verus!
