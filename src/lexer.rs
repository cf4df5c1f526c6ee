use vstd::prelude::*;
use crate::error::Error;
use crate::text::{cat, decimal_text, int_text};
use vstd::string::StringExecFns;

verus! {

/// A token of the source language.
#[derive(Clone, Debug, PartialEq)]
pub enum Token {
    Eof,
    // Commands
    Def,
    Extern,
    Let,
    Return,
    // Primary
    Identifier(String),
    Integer(i64),
    /// A float literal, kept as its source text (`integral.fraction`).
    Float(String),
    // Operators
    LessThan,
    Minus,
    Plus,
    Star,
    Equal,
    // Other
    Colon,
    SemiColon,
    OpenParen,
    CloseParen,
    Comma,
    OpenBracket,
    CloseBracket,
}

/// The mathematical value of a token: its strings seen as character sequences.
pub enum TokenView {
    Eof,
    Def,
    Extern,
    Let,
    Return,
    Identifier(Seq<char>),
    Integer(i64),
    Float(Seq<char>),
    LessThan,
    Minus,
    Plus,
    Star,
    Equal,
    Colon,
    SemiColon,
    OpenParen,
    CloseParen,
    Comma,
    OpenBracket,
    CloseBracket,
}

impl View for Token {
    type V = TokenView;

    open spec fn view(&self) -> TokenView {
        match self {
            Token::Eof => TokenView::Eof,
            Token::Def => TokenView::Def,
            Token::Extern => TokenView::Extern,
            Token::Let => TokenView::Let,
            Token::Return => TokenView::Return,
            Token::Identifier(s) => TokenView::Identifier(s@),
            Token::Integer(i) => TokenView::Integer(*i),
            Token::Float(s) => TokenView::Float(s@),
            Token::LessThan => TokenView::LessThan,
            Token::Minus => TokenView::Minus,
            Token::Plus => TokenView::Plus,
            Token::Star => TokenView::Star,
            Token::Equal => TokenView::Equal,
            Token::Colon => TokenView::Colon,
            Token::SemiColon => TokenView::SemiColon,
            Token::OpenParen => TokenView::OpenParen,
            Token::CloseParen => TokenView::CloseParen,
            Token::Comma => TokenView::Comma,
            Token::OpenBracket => TokenView::OpenBracket,
            Token::CloseBracket => TokenView::CloseBracket,
        }
    }
}

impl Token {
    /// A copy of this token.
    pub fn duplicate(&self) -> (r: Token)
        ensures
            r@ == self@,
    {
        match self {
            Token::Eof => Token::Eof,
            Token::Def => Token::Def,
            Token::Extern => Token::Extern,
            Token::Let => Token::Let,
            Token::Return => Token::Return,
            Token::Identifier(s) => Token::Identifier(s.clone()),
            Token::Integer(i) => Token::Integer(*i),
            Token::Float(s) => Token::Float(s.clone()),
            Token::LessThan => Token::LessThan,
            Token::Minus => Token::Minus,
            Token::Plus => Token::Plus,
            Token::Star => Token::Star,
            Token::Equal => Token::Equal,
            Token::Colon => Token::Colon,
            Token::SemiColon => Token::SemiColon,
            Token::OpenParen => Token::OpenParen,
            Token::CloseParen => Token::CloseParen,
            Token::Comma => Token::Comma,
            Token::OpenBracket => Token::OpenBracket,
            Token::CloseBracket => Token::CloseBracket,
        }
    }

    /// Whether two tokens are equal by value.
    pub fn same(&self, other: &Token) -> (r: bool)
        ensures
            r == (self@ == other@),
    {
        match self {
            Token::Identifier(a) => match other {
                Token::Identifier(b) => a.eq(b),
                _ => false,
            },
            Token::Float(a) => match other {
                Token::Float(b) => a.eq(b),
                _ => false,
            },
            Token::Integer(a) => match other {
                Token::Integer(b) => *a == *b,
                _ => false,
            },
            _ => {
                let r = self.tag() == other.tag();
                proof {
                    if r {
                        lemma_tag_determines(self@, other@);
                    }
                }
                r
            },
        }
    }

    /// The display form of this token.
    pub fn text(&self) -> (r: String)
        ensures
            r@ == token_text(self@),
    {
        match self {
            Token::Eof => "end of input".to_owned(),
            Token::Def => "fn".to_owned(),
            Token::Extern => "extern".to_owned(),
            Token::Let => "let".to_owned(),
            Token::Return => "return".to_owned(),
            Token::Identifier(id) => cat("identifier: ".to_owned(), id.as_str()),
            Token::Integer(i) => decimal_text(*i),
            Token::Float(s) => s.clone(),
            Token::LessThan => "<".to_owned(),
            Token::Minus => "-".to_owned(),
            Token::Plus => "+".to_owned(),
            Token::Star => "*".to_owned(),
            Token::Equal => "=".to_owned(),
            Token::Colon => ":".to_owned(),
            Token::SemiColon => ";".to_owned(),
            Token::OpenParen => "(".to_owned(),
            Token::CloseParen => ")".to_owned(),
            Token::Comma => ",".to_owned(),
            Token::OpenBracket => "{".to_owned(),
            Token::CloseBracket => "}".to_owned(),
        }
    }

    /// A number for each variant.
    fn tag(&self) -> (r: u8)
        ensures
            r == tag_of(self@),
    {
        match self {
            Token::Eof => 0,
            Token::Def => 1,
            Token::Extern => 2,
            Token::Let => 3,
            Token::Return => 4,
            Token::Identifier(_) => 5,
            Token::Integer(_) => 6,
            Token::Float(_) => 7,
            Token::LessThan => 8,
            Token::Minus => 9,
            Token::Plus => 10,
            Token::Star => 11,
            Token::Equal => 12,
            Token::Colon => 13,
            Token::SemiColon => 14,
            Token::OpenParen => 15,
            Token::CloseParen => 16,
            Token::Comma => 17,
            Token::OpenBracket => 18,
            Token::CloseBracket => 19,
        }
    }
}

proof fn lemma_tag_determines(a: TokenView, b: TokenView)
    requires
        tag_of(a) == tag_of(b),
        !(a is Identifier),
        !(a is Integer),
        !(a is Float),
    ensures
        a == b,
{
    match a {
        TokenView::Eof => assert(b is Eof),
        TokenView::Def => assert(b is Def),
        TokenView::Extern => assert(b is Extern),
        TokenView::Let => assert(b is Let),
        TokenView::Return => assert(b is Return),
        TokenView::LessThan => assert(b is LessThan),
        TokenView::Minus => assert(b is Minus),
        TokenView::Plus => assert(b is Plus),
        TokenView::Star => assert(b is Star),
        TokenView::Equal => assert(b is Equal),
        TokenView::Colon => assert(b is Colon),
        TokenView::SemiColon => assert(b is SemiColon),
        TokenView::OpenParen => assert(b is OpenParen),
        TokenView::CloseParen => assert(b is CloseParen),
        TokenView::Comma => assert(b is Comma),
        TokenView::OpenBracket => assert(b is OpenBracket),
        TokenView::CloseBracket => assert(b is CloseBracket),
        _ => {},
    }
}

/// The display form of a token, as used in diagnostics.
pub open spec fn token_text(t: TokenView) -> Seq<char> {
    match t {
        TokenView::Eof => "end of input"@,
        TokenView::Def => "fn"@,
        TokenView::Extern => "extern"@,
        TokenView::Let => "let"@,
        TokenView::Return => "return"@,
        TokenView::Identifier(id) => "identifier: "@ + id,
        TokenView::Integer(i) => int_text(i as int),
        TokenView::Float(s) => s,
        TokenView::LessThan => "<"@,
        TokenView::Minus => "-"@,
        TokenView::Plus => "+"@,
        TokenView::Star => "*"@,
        TokenView::Equal => "="@,
        TokenView::Colon => ":"@,
        TokenView::SemiColon => ";"@,
        TokenView::OpenParen => "("@,
        TokenView::CloseParen => ")"@,
        TokenView::Comma => ","@,
        TokenView::OpenBracket => "{"@,
        TokenView::CloseBracket => "}"@,
    }
}

pub open spec fn tag_of(t: TokenView) -> u8 {
    match t {
        TokenView::Eof => 0,
        TokenView::Def => 1,
        TokenView::Extern => 2,
        TokenView::Let => 3,
        TokenView::Return => 4,
        TokenView::Identifier(_) => 5,
        TokenView::Integer(_) => 6,
        TokenView::Float(_) => 7,
        TokenView::LessThan => 8,
        TokenView::Minus => 9,
        TokenView::Plus => 10,
        TokenView::Star => 11,
        TokenView::Equal => 12,
        TokenView::Colon => 13,
        TokenView::SemiColon => 14,
        TokenView::OpenParen => 15,
        TokenView::CloseParen => 16,
        TokenView::Comma => 17,
        TokenView::OpenBracket => 18,
        TokenView::CloseBracket => 19,
    }
}

// ---------------------------------------------------------------------------
// The scanner, stated over the input bytes.
pub const CLOSE_BRACE: u8 = 125;
pub const CLOSE_PAREN: u8 = 41;
pub const COLON: u8 = 58;
pub const COMMA: u8 = 44;
pub const CR: u8 = 13;
pub const DIGIT_0: u8 = 48;
pub const DIGIT_9: u8 = 57;
pub const DOT: u8 = 46;
pub const EQUALS: u8 = 61;
pub const HASH: u8 = 35;
pub const LESS: u8 = 60;
pub const LOWER_A: u8 = 97;
pub const LOWER_Z: u8 = 122;
pub const MINUS: u8 = 45;
pub const NEWLINE: u8 = 10;
pub const OPEN_BRACE: u8 = 123;
pub const OPEN_PAREN: u8 = 40;
pub const PLUS: u8 = 43;
pub const SEMI: u8 = 59;
pub const SPACE: u8 = 32;
pub const STAR: u8 = 42;
pub const TAB: u8 = 9;
pub const UNDERSCORE: u8 = 95;
pub const UPPER_A: u8 = 65;
pub const UPPER_Z: u8 = 90;

pub open spec fn is_space(b: u8) -> bool {
    b == SPACE || b == TAB || b == CR || b == NEWLINE
}

pub open spec fn is_alpha(b: u8) -> bool {
    (LOWER_A <= b <= LOWER_Z) || (UPPER_A <= b <= UPPER_Z) || b == UNDERSCORE
}

pub open spec fn is_digit(b: u8) -> bool {
    DIGIT_0 <= b <= DIGIT_9
}

pub open spec fn is_ident_byte(b: u8) -> bool {
    is_alpha(b) || is_digit(b)
}

/// The token of a one-byte operator or punctuation mark.
pub open spec fn punct(b: u8) -> Option<TokenView> {
    if b == LESS {
        Some(TokenView::LessThan)
    } else if b == PLUS {
        Some(TokenView::Plus)
    } else if b == MINUS {
        Some(TokenView::Minus)
    } else if b == STAR {
        Some(TokenView::Star)
    } else if b == SEMI {
        Some(TokenView::SemiColon)
    } else if b == COMMA {
        Some(TokenView::Comma)
    } else if b == OPEN_PAREN {
        Some(TokenView::OpenParen)
    } else if b == CLOSE_PAREN {
        Some(TokenView::CloseParen)
    } else if b == OPEN_BRACE {
        Some(TokenView::OpenBracket)
    } else if b == CLOSE_BRACE {
        Some(TokenView::CloseBracket)
    } else if b == EQUALS {
        Some(TokenView::Equal)
    } else if b == COLON {
        Some(TokenView::Colon)
    } else {
        None
    }
}

/// Bytes read as characters, one for one.
pub open spec fn chars_of(w: Seq<u8>) -> Seq<char> {
    w.map_values(|b: u8| b as char)
}

/// The value of a run of decimal digits.
pub open spec fn decimal(d: Seq<u8>) -> nat
    decreases d.len(),
{
    if d.len() == 0 {
        0
    } else {
        decimal(d.drop_last()) * 10 + (d.last() - DIGIT_0) as nat
    }
}

/// The end of the run of identifier bytes that starts at `p`.
pub open spec fn ident_end(s: Seq<u8>, p: int) -> int
    decreases s.len() - p,
{
    if 0 <= p < s.len() && is_ident_byte(s[p]) {
        ident_end(s, p + 1)
    } else {
        p
    }
}

/// The end of the run of decimal digits that starts at `p`.
pub open spec fn digits_end(s: Seq<u8>, p: int) -> int
    decreases s.len() - p,
{
    if 0 <= p < s.len() && is_digit(s[p]) {
        digits_end(s, p + 1)
    } else {
        p
    }
}

/// A keyword, or else an identifier.
pub open spec fn word_token(w: Seq<u8>) -> TokenView {
    // `fn`, `extern`, `return`, `let`
    if w =~= seq![102u8, 110u8] {
        TokenView::Def
    } else if w =~= seq![101u8, 120u8, 116u8, 101u8, 114u8, 110u8] {
        TokenView::Extern
    } else if w =~= seq![114u8, 101u8, 116u8, 117u8, 114u8, 110u8] {
        TokenView::Return
    } else if w =~= seq![108u8, 101u8, 116u8] {
        TokenView::Let
    } else {
        TokenView::Identifier(chars_of(w))
    }
}

/// The number literal that starts at `p`, and where it ends.
pub open spec fn number_at(s: Seq<u8>, p: int) -> (Result<TokenView, Error>, int) {
    let e1 = digits_end(s, p);
    if e1 < s.len() && s[e1] == DOT {
        let e2 = digits_end(s, e1 + 1);
        if e1 == p && e2 == e1 + 1 {
            (Err(Error::ParseFloat), e2)
        } else {
            (Ok(TokenView::Float(chars_of(s.subrange(p, e2)))), e2)
        }
    } else {
        let v = decimal(s.subrange(p, e1));
        if v > i64::MAX {
            (Err(Error::ParseInt), e1)
        } else {
            (Ok(TokenView::Integer(v as i64)), e1)
        }
    }
}

/// What the scanner yields from position `p`, and the position after it.
pub open spec fn scan(s: Seq<u8>, p: int) -> (Result<TokenView, Error>, int)
    decreases s.len() - p, 1int,
{
    if p < 0 || p >= s.len() {
        (Ok(TokenView::Eof), s.len() as int)
    } else if is_space(s[p]) {
        scan(s, p + 1)
    } else if s[p] == HASH {
        skip_comment(s, p + 1)
    } else if is_alpha(s[p]) {
        let e = ident_end(s, p);
        (Ok(word_token(s.subrange(p, e))), e)
    } else if is_digit(s[p]) || s[p] == DOT {
        number_at(s, p)
    } else {
        match punct(s[p]) {
            Some(t) => (Ok(t), p + 1),
            None => (Err(Error::UnknownChar(s[p] as char)), p + 1),
        }
    }
}

/// The scanner inside a comment: the comment runs through the next newline.
pub open spec fn skip_comment(s: Seq<u8>, p: int) -> (Result<TokenView, Error>, int)
    decreases s.len() - p, 0int,
{
    if p < 0 || p >= s.len() {
        (Ok(TokenView::Eof), s.len() as int)
    } else if s[p] == NEWLINE {
        scan(s, p + 1)
    } else {
        skip_comment(s, p + 1)
    }
}

/// The number of newline bytes in `t`.
pub open spec fn newline_count(t: Seq<u8>) -> nat
    decreases t.len(),
{
    if t.len() == 0 {
        0
    } else {
        newline_count(t.drop_last()) + if t.last() == NEWLINE {
            1nat
        } else {
            0nat
        }
    }
}

/// The 1-based column of the byte at position `p`.
pub open spec fn column_at(s: Seq<u8>, p: int) -> nat
    decreases p,
{
    if p <= 0 {
        1
    } else if s[p - 1] == NEWLINE {
        1
    } else {
        column_at(s, p - 1) + 1
    }
}

// ---------------------------------------------------------------------------
// The lexer's steps, stated over (input, position, lookahead).
/// The token that `next_token` yields, the position after it and the
/// lookahead left.
pub open spec fn next_step(s: Seq<u8>, p: int, la: Seq<TokenView>) -> (
    Result<TokenView, Error>,
    int,
    Seq<TokenView>,
) {
    if la.len() > 0 {
        (Ok(la[0]), p, la.drop_first())
    } else {
        let (r, e) = scan(s, p);
        (r, e, la)
    }
}

/// Scans tokens onto the lookahead until it holds `n` of them, or until the
/// scanner fails.
pub open spec fn fill(s: Seq<u8>, p: int, la: Seq<TokenView>, n: nat) -> (
    Result<(), Error>,
    int,
    Seq<TokenView>,
)
    decreases n - la.len(),
{
    if la.len() >= n {
        (Ok(()), p, la)
    } else {
        let (r, e) = scan(s, p);
        match r {
            Ok(t) => fill(s, e, la.push(t), n),
            Err(err) => (Err(err), e, la),
        }
    }
}

/// The token that `peek(k)` yields, the position after it and the lookahead
/// left.
pub open spec fn peek_step(s: Seq<u8>, p: int, la: Seq<TokenView>, k: nat) -> (
    Result<TokenView, Error>,
    int,
    Seq<TokenView>,
) {
    let (r, e, la2) = fill(s, p, la, k + 1);
    match r {
        Ok(_) => (Ok(la2[k as int]), e, la2),
        Err(err) => (Err(err), e, la2),
    }
}

/// How much is left to read: unread bytes and buffered tokens.
pub open spec fn remaining(s: Seq<u8>, p: int, la: Seq<TokenView>) -> int {
    (s.len() - p) + la.len()
}

/// All input is read and nothing but end-of-input tokens are buffered.
pub open spec fn exhausted(s: Seq<u8>, p: int, la: Seq<TokenView>) -> bool {
    p == s.len() && forall|i: int| 0 <= i < la.len() ==> la[i] == TokenView::Eof
}

/// A state the lexer can be in: the position within the input, and a buffer
/// in which end-of-input is followed only by end-of-input, once all input is
/// read.
pub open spec fn valid_state(s: Seq<u8>, p: int, la: Seq<TokenView>) -> bool {
    &&& 0 <= p <= s.len()
    &&& forall|i: int|
        0 <= i < la.len() && la[i] == TokenView::Eof ==> p == s.len() && forall|j: int|
            i <= j < la.len() ==> la[j] == TokenView::Eof
}

// ---------------------------------------------------------------------------
// Facts about the scanner.
proof fn lemma_ident_end(s: Seq<u8>, p: int)
    requires
        0 <= p <= s.len(),
    ensures
        p <= ident_end(s, p) <= s.len(),
        forall|i: int| p <= i < ident_end(s, p) ==> is_ident_byte(s[i]),
    decreases s.len() - p,
{
    if p < s.len() && is_ident_byte(s[p]) {
        lemma_ident_end(s, p + 1);
    }
}

proof fn lemma_digits_end(s: Seq<u8>, p: int)
    requires
        0 <= p <= s.len(),
    ensures
        p <= digits_end(s, p) <= s.len(),
        forall|i: int| p <= i < digits_end(s, p) ==> is_digit(s[i]),
    decreases s.len() - p,
{
    if p < s.len() && is_digit(s[p]) {
        lemma_digits_end(s, p + 1);
    }
}

proof fn lemma_number_at(s: Seq<u8>, p: int)
    requires
        0 <= p < s.len(),
        is_digit(s[p]) || s[p] == DOT,
    ensures
        p < number_at(s, p).1 <= s.len(),
        number_at(s, p).0 != Ok::<TokenView, Error>(TokenView::Eof),
{
    lemma_digits_end(s, p);
    lemma_digits_end(s, p + 1);
    let e1 = digits_end(s, p);
    if e1 < s.len() && s[e1] == DOT {
        lemma_digits_end(s, e1 + 1);
    }
}

/// Where the scanner ends: end-of-input only once all input is read, and any
/// other outcome only after reading at least one byte.
pub proof fn lemma_scan(s: Seq<u8>, p: int)
    requires
        0 <= p <= s.len(),
    ensures
        p <= scan(s, p).1 <= s.len(),
        scan(s, p).0 == Ok::<TokenView, Error>(TokenView::Eof) ==> scan(s, p).1 == s.len(),
        scan(s, p).0 != Ok::<TokenView, Error>(TokenView::Eof) ==> scan(s, p).1 > p,
        p == s.len() ==> scan(s, p) == (Ok::<TokenView, Error>(TokenView::Eof), s.len() as int),
    decreases s.len() - p, 1int,
{
    if p < s.len() {
        if is_space(s[p]) {
            lemma_scan(s, p + 1);
        } else if s[p] == HASH {
            lemma_skip_comment(s, p + 1);
        } else if is_alpha(s[p]) {
            lemma_ident_end(s, p);
            lemma_ident_end(s, p + 1);
            assert(ident_end(s, p) == ident_end(s, p + 1));
        } else if is_digit(s[p]) || s[p] == DOT {
            lemma_number_at(s, p);
        }
    }
}

proof fn lemma_skip_comment(s: Seq<u8>, p: int)
    requires
        0 < p <= s.len(),
    ensures
        p - 1 <= skip_comment(s, p).1 <= s.len(),
        skip_comment(s, p).0 == Ok::<TokenView, Error>(TokenView::Eof) ==> skip_comment(s, p).1
            == s.len(),
        skip_comment(s, p).0 != Ok::<TokenView, Error>(TokenView::Eof) ==> skip_comment(s, p).1
            >= p,
    decreases s.len() - p, 0int,
{
    if p < s.len() {
        if s[p] == NEWLINE {
            lemma_scan(s, p + 1);
        } else {
            lemma_skip_comment(s, p + 1);
        }
    }
}

proof fn lemma_push_scanned(s: Seq<u8>, p: int, la: Seq<TokenView>)
    requires
        valid_state(s, p, la),
        scan(s, p).0 is Ok,
    ensures
        valid_state(s, scan(s, p).1, la.push(scan(s, p).0->Ok_0)),
{
    lemma_scan(s, p);
    let (r, e) = scan(s, p);
    let t = r->Ok_0;
    let la2 = la.push(t);
    assert forall|i: int| 0 <= i < la2.len() && la2[i] == TokenView::Eof implies e == s.len()
        && forall|j: int| i <= j < la2.len() ==> la2[j] == TokenView::Eof by {
        if i < la.len() {
            assert(p == s.len());
        } else {
            assert(t == TokenView::Eof);
        }
    }
}

proof fn lemma_fill(s: Seq<u8>, p: int, la: Seq<TokenView>, n: nat)
    requires
        valid_state(s, p, la),
    ensures
        valid_state(s, fill(s, p, la, n).1, fill(s, p, la, n).2),
        fill(s, p, la, n).0 is Ok ==> fill(s, p, la, n).2.len() >= n,
        fill(s, p, la, n).2.len() >= la.len(),
        forall|i: int| 0 <= i < la.len() ==> fill(s, p, la, n).2[i] == la[i],
    decreases n - la.len(),
{
    if la.len() < n {
        lemma_scan(s, p);
        let (r, e) = scan(s, p);
        if let Ok(t) = r {
            let la2 = la.push(t);
            lemma_push_scanned(s, p, la);
            lemma_fill(s, e, la2, n);
            assert forall|i: int| 0 <= i < la.len() implies la2[i] == la[i] by {}
        }
    }
}

/// The number of buffered tokens other than end-of-input.
pub open spec fn pending(la: Seq<TokenView>) -> nat
    decreases la.len(),
{
    if la.len() == 0 {
        0
    } else {
        pending(la.drop_last()) + if la.last() == TokenView::Eof {
            0nat
        } else {
            1nat
        }
    }
}

/// The work left to a reader: unread bytes and buffered tokens other than
/// end-of-input. Scanning never adds to it.
pub open spec fn work(s: Seq<u8>, p: int, la: Seq<TokenView>) -> int {
    (s.len() - p) + pending(la)
}

proof fn lemma_pending_drop_first(la: Seq<TokenView>)
    requires
        la.len() > 0,
    ensures
        pending(la) == pending(la.drop_first()) + if la[0] == TokenView::Eof {
            0nat
        } else {
            1nat
        },
    decreases la.len(),
{
    if la.len() > 1 {
        lemma_pending_drop_first(la.drop_last());
        assert(la.drop_last().drop_first() =~= la.drop_first().drop_last());
    } else {
        assert(la.drop_first() =~= Seq::<TokenView>::empty());
        assert(la.drop_last() =~= Seq::<TokenView>::empty());
    }
}

proof fn lemma_push_work(s: Seq<u8>, p: int, la: Seq<TokenView>)
    requires
        valid_state(s, p, la),
        scan(s, p).0 is Ok,
    ensures
        work(s, scan(s, p).1, la.push(scan(s, p).0->Ok_0)) <= work(s, p, la),
{
    lemma_scan(s, p);
    assert(la.push(scan(s, p).0->Ok_0).drop_last() =~= la);
}

proof fn lemma_fill_work(s: Seq<u8>, p: int, la: Seq<TokenView>, n: nat)
    requires
        valid_state(s, p, la),
    ensures
        work(s, fill(s, p, la, n).1, fill(s, p, la, n).2) <= work(s, p, la),
    decreases n - la.len(),
{
    if la.len() < n {
        lemma_scan(s, p);
        let (r, e) = scan(s, p);
        if let Ok(t) = r {
            lemma_push_scanned(s, p, la);
            lemma_push_work(s, p, la);
            lemma_fill_work(s, e, la.push(t), n);
        }
    }
}

/// Reading a token never adds work, and reading anything but end-of-input
/// takes some away.
pub proof fn lemma_next_work(s: Seq<u8>, p: int, la: Seq<TokenView>)
    requires
        valid_state(s, p, la),
    ensures
        work(s, next_step(s, p, la).1, next_step(s, p, la).2) <= work(s, p, la),
        next_step(s, p, la).0 is Ok && next_step(s, p, la).0->Ok_0 != TokenView::Eof ==> work(
            s,
            next_step(s, p, la).1,
            next_step(s, p, la).2,
        ) < work(s, p, la),
{
    lemma_scan(s, p);
    if la.len() > 0 {
        lemma_pending_drop_first(la);
    }
}

/// A next token other than end-of-input leaves some work to do.
pub proof fn lemma_token_left(s: Seq<u8>, p: int, la: Seq<TokenView>)
    requires
        valid_state(s, p, la),
        next_step(s, p, la).0 is Ok,
        next_step(s, p, la).0->Ok_0 != TokenView::Eof,
    ensures
        work(s, p, la) >= 1,
        work(s, next_step(s, p, la).1, next_step(s, p, la).2) >= 0,
{
    lemma_next_work(s, p, la);
    lemma_lexing_reaches_eof(s, p, la);
}

// ---------------------------------------------------------------------------
// The laws of the lexer.
/// Among the next `n` calls of `next_token`, one yields end-of-input.
pub open spec fn eof_within(s: Seq<u8>, p: int, la: Seq<TokenView>, n: nat) -> bool
    decreases n,
{
    n > 0 && (next_step(s, p, la).0 == Ok::<TokenView, Error>(TokenView::Eof) || eof_within(
        s,
        next_step(s, p, la).1,
        next_step(s, p, la).2,
        (n - 1) as nat,
    ))
}

proof fn lemma_eof_within_more(s: Seq<u8>, p: int, la: Seq<TokenView>, m: nat, n: nat)
    requires
        eof_within(s, p, la, m),
        m <= n,
    ensures
        eof_within(s, p, la, n),
    decreases m,
{
    if next_step(s, p, la).0 != Ok::<TokenView, Error>(TokenView::Eof) {
        lemma_eof_within_more(
            s,
            next_step(s, p, la).1,
            next_step(s, p, la).2,
            (m - 1) as nat,
            (n - 1) as nat,
        );
    }
}

/// Every input is lexed to its end: from any state, one of the next
/// `remaining + 1` calls of `next_token` (the input's length plus one, for a
/// new lexer) yields end-of-input, whatever errors come before it.
pub proof fn lemma_eof_reached(s: Seq<u8>, p: int, la: Seq<TokenView>)
    requires
        valid_state(s, p, la),
    ensures
        remaining(s, p, la) >= 0,
        eof_within(s, p, la, (remaining(s, p, la) + 1) as nat),
    decreases remaining(s, p, la),
{
    lemma_lexing_reaches_eof(s, p, la);
    let (r, p2, la2) = next_step(s, p, la);
    if r != Ok::<TokenView, Error>(TokenView::Eof) {
        lemma_eof_reached(s, p2, la2);
        lemma_eof_within_more(
            s,
            p2,
            la2,
            (remaining(s, p2, la2) + 1) as nat,
            remaining(s, p, la) as nat,
        );
    }
}

/// Lexing always comes to an end: each call of `next_token` that yields
/// anything but end-of-input leaves strictly less to read; once it has
/// yielded end-of-input, every later call yields end-of-input again.
pub proof fn lemma_lexing_reaches_eof(s: Seq<u8>, p: int, la: Seq<TokenView>)
    requires
        valid_state(s, p, la),
    ensures
        valid_state(s, next_step(s, p, la).1, next_step(s, p, la).2),
        next_step(s, p, la).0 != Ok::<TokenView, Error>(TokenView::Eof) ==> remaining(
            s,
            next_step(s, p, la).1,
            next_step(s, p, la).2,
        ) < remaining(s, p, la),
        next_step(s, p, la).0 == Ok::<TokenView, Error>(TokenView::Eof) ==> exhausted(
            s,
            next_step(s, p, la).1,
            next_step(s, p, la).2,
        ),
        exhausted(s, p, la) ==> next_step(s, p, la).0 == Ok::<TokenView, Error>(TokenView::Eof),
{
    lemma_scan(s, p);
    if la.len() > 0 {
        let la2 = la.drop_first();
        assert forall|i: int| 0 <= i < la2.len() && la2[i] == TokenView::Eof implies p == s.len()
            && forall|j: int| i <= j < la2.len() ==> la2[j] == TokenView::Eof by {
            assert(la[i + 1] == TokenView::Eof);
            assert forall|j: int| i <= j < la2.len() implies la2[j] == TokenView::Eof by {
                assert(la[j + 1] == TokenView::Eof);
            }
        }
        if la[0] == TokenView::Eof {
            assert forall|i: int| 0 <= i < la2.len() implies la2[i] == TokenView::Eof by {
                assert(la[i + 1] == TokenView::Eof);
            }
        }
    }
}

/// Peeking at the next token and then reading it yields equal tokens.
pub proof fn lemma_peek_then_next(s: Seq<u8>, p: int, la: Seq<TokenView>)
    requires
        valid_state(s, p, la),
    ensures
        peek_step(s, p, la, 0).0 is Ok ==> next_step(
            s,
            peek_step(s, p, la, 0).1,
            peek_step(s, p, la, 0).2,
        ).0 == peek_step(s, p, la, 0).0,
{
    lemma_fill(s, p, la, 1);
}

// ---------------------------------------------------------------------------
/// A lexer over an in-memory byte source, with a lookahead buffer.
pub struct Lexer {
    src: Vec<u8>,
    pos: usize,
    lookahead: Vec<Token>,
    line: usize,
    column: usize,
}

proof fn lemma_newline_count_step(s: Seq<u8>, p: int)
    requires
        0 <= p < s.len(),
    ensures
        newline_count(s.subrange(0, p + 1)) == newline_count(s.subrange(0, p)) + if s[p]
            == NEWLINE {
            1nat
        } else {
            0nat
        },
{
    assert(s.subrange(0, p + 1).drop_last() =~= s.subrange(0, p));
}

proof fn lemma_newline_count_bound(t: Seq<u8>)
    ensures
        newline_count(t) <= t.len(),
    decreases t.len(),
{
    if t.len() > 0 {
        lemma_newline_count_bound(t.drop_last());
    }
}

proof fn lemma_column_bound(s: Seq<u8>, p: int)
    requires
        0 <= p <= s.len(),
    ensures
        1 <= column_at(s, p) <= p + 1,
    decreases p,
{
    if p > 0 {
        lemma_column_bound(s, p - 1);
    }
}

/// A scan result, with the token seen as a value.
pub open spec fn lexed(r: Result<Token, Error>) -> Result<TokenView, Error> {
    match r {
        Ok(t) => Ok(t@),
        Err(e) => Err(e),
    }
}

proof fn lemma_decimal_prefix(d: Seq<u8>, k: int)
    requires
        0 <= k <= d.len(),
    ensures
        decimal(d.subrange(0, k)) <= decimal(d),
    decreases d.len(),
{
    if k == d.len() {
        assert(d.subrange(0, k) =~= d);
    } else {
        lemma_decimal_prefix(d.drop_last(), k);
        assert(d.drop_last().subrange(0, k) =~= d.subrange(0, k));
    }
}

fn alpha(b: u8) -> (r: bool)
    ensures
        r == is_alpha(b),
{
    (LOWER_A <= b && b <= LOWER_Z) || (UPPER_A <= b && b <= UPPER_Z) || b == UNDERSCORE
}

fn digit(b: u8) -> (r: bool)
    ensures
        r == is_digit(b),
{
    DIGIT_0 <= b && b <= DIGIT_9
}

fn ident_byte(b: u8) -> (r: bool)
    ensures
        r == is_ident_byte(b),
{
    alpha(b) || digit(b)
}

fn punct_token(b: u8) -> (r: Option<Token>)
    ensures
        match r {
            Some(t) => punct(b) == Some(t@),
            None => punct(b) is None,
        },
{
    if b == LESS {
        Some(Token::LessThan)
    } else if b == PLUS {
        Some(Token::Plus)
    } else if b == MINUS {
        Some(Token::Minus)
    } else if b == STAR {
        Some(Token::Star)
    } else if b == SEMI {
        Some(Token::SemiColon)
    } else if b == COMMA {
        Some(Token::Comma)
    } else if b == OPEN_PAREN {
        Some(Token::OpenParen)
    } else if b == CLOSE_PAREN {
        Some(Token::CloseParen)
    } else if b == OPEN_BRACE {
        Some(Token::OpenBracket)
    } else if b == CLOSE_BRACE {
        Some(Token::CloseBracket)
    } else if b == EQUALS {
        Some(Token::Equal)
    } else if b == COLON {
        Some(Token::Colon)
    } else {
        None
    }
}

impl Lexer {
    /// The buffered tokens, as values.
    pub closed spec fn buffered(&self) -> Seq<TokenView> {
        self.lookahead@.map_values(|t: Token| t@)
    }

    pub closed spec fn input(&self) -> Seq<u8> {
        self.src@
    }

    pub closed spec fn position(&self) -> int {
        self.pos as int
    }

    /// The work left to a reader of this lexer.
    pub open spec fn work(&self) -> nat {
        work(self.input(), self.position(), self.buffered()) as nat
    }

    /// What `next_token` would yield, and the position and lookahead after it.
    pub open spec fn next_view(&self) -> (Result<TokenView, Error>, int, Seq<TokenView>) {
        next_step(self.input(), self.position(), self.buffered())
    }

    /// What `peek(k)` would yield, and the position and lookahead after it.
    pub open spec fn peek_view(&self, k: nat) -> (Result<TokenView, Error>, int, Seq<TokenView>) {
        peek_step(self.input(), self.position(), self.buffered(), k)
    }

    /// After a successful peek at the next token, reading yields that token.
    pub proof fn lemma_peek_then_read(&self)
        requires
            self.wf(),
        ensures
            valid_state(self.input(), self.position(), self.buffered()),
            self.peek_view(0).0 is Ok ==> next_step(
                self.input(),
                self.peek_view(0).1,
                self.peek_view(0).2,
            ).0 == self.peek_view(0).0,
    {
        lemma_peek_then_next(self.src@, self.pos as int, self.buffered());
    }

    pub closed spec fn wf(&self) -> bool {
        &&& self.src@.len() < usize::MAX
        &&& valid_state(self.src@, self.pos as int, self.buffered())
        &&& self.line == 1 + newline_count(self.src@.subrange(0, self.pos as int))
        &&& self.column == column_at(self.src@, self.pos as int)
    }

    /// A lexer at the start of `src`.
    pub fn new(src: Vec<u8>) -> (r: Lexer)
        requires
            src@.len() < usize::MAX,
        ensures
            r.wf(),
            r.input() == src@,
            r.position() == 0,
            r.buffered() == Seq::<TokenView>::empty(),
    {
        let r = Lexer { src, pos: 0, lookahead: Vec::new(), line: 1, column: 1 };
        proof {
            assert(r.src@.subrange(0, 0) =~= Seq::<u8>::empty());
            assert(r.buffered() =~= Seq::<TokenView>::empty());
        }
        r
    }

    /// The line of the read position: one more than the number of newlines
    /// read so far.
    pub fn get_line(&self) -> (r: usize)
        requires
            self.wf(),
        ensures
            r == 1 + newline_count(self.input().subrange(0, self.position())),
    {
        self.line
    }

    /// The 1-based column of the read position.
    pub fn get_pos(&self) -> (r: usize)
        requires
            self.wf(),
        ensures
            r == column_at(self.input(), self.position()),
    {
        self.column
    }

    /// Reads one byte.
    fn bump(&mut self)
        requires
            old(self).wf(),
            old(self).pos < old(self).src@.len(),
        ensures
            final(self).wf(),
            final(self).src == old(self).src,
            final(self).lookahead == old(self).lookahead,
            final(self).pos == old(self).pos + 1,
    {
        proof {
            lemma_newline_count_step(self.src@, self.pos as int);
            lemma_newline_count_bound(self.src@.subrange(0, self.pos as int));
            lemma_column_bound(self.src@, self.pos as int);
        }
        if self.src[self.pos] == NEWLINE {
            self.line = self.line + 1;
            self.column = 1;
        } else {
            self.column = self.column + 1;
        }
        self.pos = self.pos + 1;
    }

    /// Scans one token from the read position.
    fn scan_token(&mut self) -> (r: Result<Token, Error>)
        requires
            old(self).wf(),
        ensures
            final(self).wf(),
            final(self).src == old(self).src,
            final(self).lookahead == old(self).lookahead,
            (lexed(r), final(self).pos as int) == scan(old(self).src@, old(self).pos as int),
    {
        let ghost target = scan(self.src@, self.pos as int);
        loop
            invariant
                self.wf(),
                self.src == old(self).src,
                self.lookahead == old(self).lookahead,
                scan(self.src@, self.pos as int) == target,
                target == scan(old(self).src@, old(self).pos as int),
            decreases self.src@.len() - self.pos,
        {
            if self.pos >= self.src.len() {
                return Ok(Token::Eof);
            }
            let b = self.src[self.pos];
            if b == SPACE || b == TAB || b == CR || b == NEWLINE {
                self.bump();
            } else if b == HASH {
                let ghost before = self.pos;
                self.bump();
                while self.pos < self.src.len() && self.src[self.pos] != NEWLINE
                    invariant
                        self.wf(),
                        self.src == old(self).src,
                        self.lookahead == old(self).lookahead,
                        skip_comment(self.src@, self.pos as int) == target,
                        target == scan(old(self).src@, old(self).pos as int),
                        self.pos > before,
                    decreases self.src@.len() - self.pos,
                {
                    self.bump();
                }
                if self.pos >= self.src.len() {
                    return Ok(Token::Eof);
                }
                self.bump();
            } else if alpha(b) {
                return Ok(self.identifier());
            } else if digit(b) || b == DOT {
                return self.number();
            } else {
                self.bump();
                return match punct_token(b) {
                    Some(t) => Ok(t),
                    None => Err(Error::UnknownChar(b as char)),
                };
            }
        }
    }

    /// Reads a word: a keyword or an identifier.
    fn identifier(&mut self) -> (r: Token)
        requires
            old(self).wf(),
            old(self).pos < old(self).src@.len(),
            is_alpha(old(self).src@[old(self).pos as int]),
        ensures
            final(self).wf(),
            final(self).src == old(self).src,
            final(self).lookahead == old(self).lookahead,
            final(self).pos == ident_end(old(self).src@, old(self).pos as int),
            r@ == word_token(old(self).src@.subrange(old(self).pos as int, final(self).pos as int)),
    {
        let start = self.pos;
        while self.pos < self.src.len() && ident_byte(self.src[self.pos])
            invariant
                self.wf(),
                self.src == old(self).src,
                self.lookahead == old(self).lookahead,
                start <= self.pos,
                start == old(self).pos,
                ident_end(self.src@, self.pos as int) == ident_end(self.src@, start as int),
            decreases self.src@.len() - self.pos,
        {
            self.bump();
        }
        let end = self.pos;
        if self.spells(start, end, &vec![102u8, 110u8]) {
            Token::Def
        } else if self.spells(start, end, &vec![101u8, 120u8, 116u8, 101u8, 114u8, 110u8]) {
            Token::Extern
        } else if self.spells(start, end, &vec![114u8, 101u8, 116u8, 117u8, 114u8, 110u8]) {
            Token::Return
        } else if self.spells(start, end, &vec![108u8, 101u8, 116u8]) {
            Token::Let
        } else {
            Token::Identifier(self.text_of(start, end))
        }
    }

    /// Reads a run of decimal digits.
    fn skip_digits(&mut self)
        requires
            old(self).wf(),
        ensures
            final(self).wf(),
            final(self).src == old(self).src,
            final(self).lookahead == old(self).lookahead,
            final(self).pos == digits_end(old(self).src@, old(self).pos as int),
    {
        while self.pos < self.src.len() && digit(self.src[self.pos])
            invariant
                self.wf(),
                self.src == old(self).src,
                self.lookahead == old(self).lookahead,
                digits_end(self.src@, self.pos as int) == digits_end(
                    self.src@,
                    old(self).pos as int,
                ),
            decreases self.src@.len() - self.pos,
        {
            self.bump();
        }
    }

    /// Reads a number literal.
    fn number(&mut self) -> (r: Result<Token, Error>)
        requires
            old(self).wf(),
            old(self).pos < old(self).src@.len(),
            is_digit(old(self).src@[old(self).pos as int]) || old(self).src@[old(self).pos as int]
                == DOT,
        ensures
            final(self).wf(),
            final(self).src == old(self).src,
            final(self).lookahead == old(self).lookahead,
            (lexed(r), final(self).pos as int) == number_at(old(self).src@, old(self).pos as int),
    {
        let start = self.pos;
        proof {
            lemma_digits_end(self.src@, start as int);
        }
        self.skip_digits();
        let e1 = self.pos;
        if self.pos < self.src.len() && self.src[self.pos] == DOT {
            self.bump();
            proof {
                lemma_digits_end(self.src@, self.pos as int);
            }
            self.skip_digits();
            if e1 == start && self.pos == e1 + 1 {
                return Err(Error::ParseFloat);
            }
            Ok(Token::Float(self.text_of(start, self.pos)))
        } else {
            match self.decimal_value(start, e1) {
                Some(v) => Ok(Token::Integer(v)),
                None => Err(Error::ParseInt),
            }
        }
    }

    /// The value of the digits `src[start..end]`, unless it exceeds `i64::MAX`.
    fn decimal_value(&self, start: usize, end: usize) -> (r: Option<i64>)
        requires
            start <= end <= self.src@.len(),
            forall|i: int| start <= i < end ==> is_digit(self.src@[i]),
        ensures
            r == if decimal(self.src@.subrange(start as int, end as int)) > i64::MAX {
                None::<i64>
            } else {
                Some(decimal(self.src@.subrange(start as int, end as int)) as i64)
            },
    {
        let ghost d = self.src@.subrange(start as int, end as int);
        let mut v: u64 = 0;
        let mut i = start;
        proof {
            assert(self.src@.subrange(start as int, start as int) =~= Seq::<u8>::empty());
        }
        while i < end
            invariant
                start <= i <= end <= self.src@.len(),
                forall|j: int| start <= j < end ==> is_digit(self.src@[j]),
                d == self.src@.subrange(start as int, end as int),
                v == decimal(self.src@.subrange(start as int, i as int)),
                v <= i64::MAX,
            decreases end - i,
        {
            let digit_value = (self.src[i] - DIGIT_0) as u64;
            let next: u128 = (v as u128) * 10 + digit_value as u128;
            proof {
                assert(self.src@.subrange(start as int, i + 1).drop_last() =~= self.src@.subrange(
                    start as int,
                    i as int,
                ));
                assert(d.subrange(0, i + 1 - start) =~= self.src@.subrange(start as int, i + 1));
                lemma_decimal_prefix(d, i + 1 - start);
            }
            if next > i64::MAX as u128 {
                return None;
            }
            v = next as u64;
            i = i + 1;
        }
        proof {
            assert(d =~= self.src@.subrange(start as int, i as int));
        }
        Some(v as i64)
    }

    /// Reads the next token: the first buffered one, or else one scanned from
    /// the input.
    pub fn next_token(&mut self) -> (r: Result<Token, Error>)
        requires
            old(self).wf(),
        ensures
            final(self).wf(),
            final(self).input() == old(self).input(),
            (lexed(r), final(self).position(), final(self).buffered()) == next_step(
                old(self).input(),
                old(self).position(),
                old(self).buffered(),
            ),
            final(self).work() <= old(self).work(),
            r is Ok && r->Ok_0@ != TokenView::Eof ==> final(self).work() < old(self).work(),
    {
        proof {
            lemma_lexing_reaches_eof(self.src@, self.pos as int, self.buffered());
            lemma_next_work(self.src@, self.pos as int, self.buffered());
        }
        if self.lookahead.len() > 0 {
            let t = self.lookahead.remove(0);
            proof {
                assert(self.buffered() =~= old(self).buffered().drop_first());
            }
            return Ok(t);
        }
        self.scan_token()
    }

    /// The token `dist` places ahead (0 is the next one), without reading
    /// it: tokens are scanned onto the lookahead buffer as needed.
    pub fn peek(&mut self, dist: usize) -> (r: Result<Token, Error>)
        requires
            old(self).wf(),
        ensures
            final(self).wf(),
            final(self).input() == old(self).input(),
            (lexed(r), final(self).position(), final(self).buffered()) == peek_step(
                old(self).input(),
                old(self).position(),
                old(self).buffered(),
                dist as nat,
            ),
            final(self).work() <= old(self).work(),
    {
        proof {
            lemma_fill_work(self.src@, self.pos as int, self.buffered(), dist as nat + 1);
        }
        loop
            invariant
                self.wf(),
                self.src == old(self).src,
                fill(self.src@, self.pos as int, self.buffered(), dist as nat + 1) == fill(
                    old(self).src@,
                    old(self).pos as int,
                    old(self).buffered(),
                    dist as nat + 1,
                ),
                work(
                    old(self).src@,
                    fill(old(self).src@, old(self).pos as int, old(self).buffered(), dist as nat + 1).1,
                    fill(old(self).src@, old(self).pos as int, old(self).buffered(), dist as nat + 1).2,
                ) <= old(self).work(),
            decreases dist as int + 1 - self.lookahead@.len(),
        {
            if self.lookahead.len() > dist {
                return Ok(self.lookahead[dist].duplicate());
            }
            let ghost p = self.pos as int;
            let ghost la = self.buffered();
            match self.scan_token() {
                Ok(t) => {
                    proof {
                        lemma_push_scanned(self.src@, p, la);
                    }
                    self.lookahead.push(t);
                    proof {
                        assert(self.buffered() =~= la.push(t@));
                    }
                },
                Err(e) => {
                    return Err(e);
                },
            }
        }
    }

    /// The characters of `src[start..end]`.
    fn text_of(&self, start: usize, end: usize) -> (r: String)
        requires
            start <= end <= self.src@.len(),
        ensures
            r@ == chars_of(self.src@.subrange(start as int, end as int)),
    {
        let mut r = String::new();
        let mut i = start;
        while i < end
            invariant
                start <= i <= end <= self.src@.len(),
                r@ == chars_of(self.src@.subrange(start as int, i as int)),
            decreases end - i,
        {
            let c = self.src[i] as char;
            r.push(c);
            proof {
                assert(chars_of(self.src@.subrange(start as int, i + 1)) =~= chars_of(
                    self.src@.subrange(start as int, i as int),
                ).push(c));
            }
            i = i + 1;
        }
        r
    }

    /// Whether `src[start..end]` spells `w`.
    fn spells(&self, start: usize, end: usize, w: &Vec<u8>) -> (r: bool)
        requires
            start <= end <= self.src@.len(),
        ensures
            r == (self.src@.subrange(start as int, end as int) =~= w@),
    {
        if end - start != w.len() {
            return false;
        }
        let mut i: usize = 0;
        while i < w.len()
            invariant
                end - start == w@.len(),
                start <= end <= self.src@.len(),
                i <= w@.len(),
                forall|j: int| 0 <= j < i ==> self.src@[start + j] == w@[j],
            decreases w@.len() - i,
        {
            if self.src[start + i] != w[i] {
                return false;
            }
            i = i + 1;
        }
        true
    }
}

} // verus!
