use crate::errors::{LoxResult, LoxResultView, ScannerErrorType};
use crate::number::{double_of_numeral, is_digit, is_numeral_with, parse_numeral};
use crate::object::ObjectView;
use crate::token::{lemma_tokens_view_push, plain_token, tokens_view, Token, TokenView};
use crate::token_type::TokenType;
use vstd::prelude::*;
use vstd::std_specs::iter::IteratorSpec;
use vstd::string::group_string_axioms;

verus! {

/// Whether Unicode counts the character as alphabetic, as `char::is_alphabetic`
/// tells.
pub uninterp spec fn is_alphabetic(c: char) -> bool;

/// Whether Unicode counts the character as alphabetic or numeric, as
/// `char::is_alphanumeric` tells.
pub uninterp spec fn is_alphanumeric(c: char) -> bool;

/// `char::is_alphabetic` tells whether Unicode counts the character as
/// alphabetic; its answer is named, not spelled out.
pub assume_specification[ char::is_alphabetic ](c: char) -> (r: bool)
    ensures
        r == is_alphabetic(c),
;

/// `char::is_alphanumeric` tells whether Unicode counts the character as
/// alphabetic or numeric; its answer is named, not spelled out.
pub assume_specification[ char::is_alphanumeric ](c: char) -> (r: bool)
    ensures
        r == is_alphanumeric(c),
;

/// `==` on string slices holds exactly of two slices with the same
/// characters in the same order.
pub assume_specification[ <str as PartialEq>::eq ](a: &str, b: &str) -> (r: bool)
    ensures
        r == (a@ == b@),
;

/// A character that can start an identifier.
pub open spec fn starts_identifier(c: char) -> bool {
    is_alphabetic(c) || c == '_'
}

/// A character that can continue an identifier.
pub open spec fn continues_identifier(c: char) -> bool {
    is_alphanumeric(c) || c == '_'
}

/// The end of the run of digits that starts at `pos`.
pub open spec fn digits_end(src: Seq<char>, pos: int) -> int
    decreases src.len() - pos,
{
    if 0 <= pos < src.len() && is_digit(src[pos]) {
        digits_end(src, pos + 1)
    } else {
        pos
    }
}

/// The end of the run of identifier characters that starts at `pos`.
pub open spec fn identifier_end(src: Seq<char>, pos: int) -> int
    decreases src.len() - pos,
{
    if 0 <= pos < src.len() && continues_identifier(src[pos]) {
        identifier_end(src, pos + 1)
    } else {
        pos
    }
}

/// The place of the first `stop` at or after `pos`, or the end of the source
/// where there is none.
pub open spec fn find_char(src: Seq<char>, pos: int, stop: char) -> int
    decreases src.len() - pos,
{
    if 0 <= pos < src.len() && src[pos] != stop {
        find_char(src, pos + 1, stop)
    } else {
        pos
    }
}

/// How many line feeds a text holds.
pub open spec fn newlines(text: Seq<char>) -> nat
    decreases text.len(),
{
    if text.len() == 0 {
        0
    } else {
        newlines(text.drop_last()) + if text.last() == '\n' {
            1nat
        } else {
            0nat
        }
    }
}

/// The end of the numeral that starts at `pos`: a run of digits, and a dot
/// with a further run of digits where a digit follows the dot.
pub open spec fn numeral_end(src: Seq<char>, pos: int) -> int {
    let whole = digits_end(src, pos);
    if whole + 1 < src.len() && src[whole] == '.' && is_digit(src[whole + 1]) {
        digits_end(src, whole + 1)
    } else {
        whole
    }
}

/// The kind of a reserved word, `None` for any other text.
pub open spec fn reserved_word(text: Seq<char>) -> Option<TokenType> {
    if text == "and"@ {
        Some(TokenType::And)
    } else if text == "class"@ {
        Some(TokenType::Class)
    } else if text == "else"@ {
        Some(TokenType::Else)
    } else if text == "false"@ {
        Some(TokenType::False)
    } else if text == "for"@ {
        Some(TokenType::For)
    } else if text == "fun"@ {
        Some(TokenType::Fun)
    } else if text == "if"@ {
        Some(TokenType::If)
    } else if text == "nil"@ {
        Some(TokenType::Nil)
    } else if text == "or"@ {
        Some(TokenType::Or)
    } else if text == "print"@ {
        Some(TokenType::Print)
    } else if text == "return"@ {
        Some(TokenType::Return)
    } else if text == "super"@ {
        Some(TokenType::Super)
    } else if text == "this"@ {
        Some(TokenType::This)
    } else if text == "true"@ {
        Some(TokenType::True)
    } else if text == "var"@ {
        Some(TokenType::Var)
    } else if text == "while"@ {
        Some(TokenType::While)
    } else {
        None
    }
}

/// What scanning one lexeme yields: the token, if the lexeme makes one, the
/// place after the lexeme, and the line there.
pub struct ScanStep {
    pub token: Option<TokenView>,
    pub next: int,
    pub line: int,
}

/// The step over a lexeme of `width` characters that makes a token.
pub open spec fn token_step(
    ttype: TokenType,
    lexeme: Seq<char>,
    pos: int,
    line: int,
    width: int,
) -> Result<ScanStep, LoxResultView> {
    Ok(
        ScanStep {
            token: Some(plain_token(ttype, lexeme, line as usize, pos as usize, width as usize)),
            next: pos + width,
            line,
        },
    )
}

/// The step over an operator that is one token alone and another when `=`
/// follows it.
pub open spec fn operator_step(
    src: Seq<char>,
    pos: int,
    line: int,
    alone: TokenType,
    alone_text: Seq<char>,
    with_equal: TokenType,
    with_equal_text: Seq<char>,
) -> Result<ScanStep, LoxResultView> {
    if pos + 1 < src.len() && src[pos + 1] == '=' {
        token_step(with_equal, with_equal_text, pos, line, 2)
    } else {
        token_step(alone, alone_text, pos, line, 1)
    }
}

/// The step over the string literal whose opening quote stands at `pos`.
pub open spec fn string_step(src: Seq<char>, pos: int, line: int) -> Result<
    ScanStep,
    LoxResultView,
> {
    let close = find_char(src, pos + 1, '"');
    if close >= src.len() {
        Err(LoxResultView::Scanner { c: '"', error_type: ScannerErrorType::UnterminatedString })
    } else {
        let content = src.subrange(pos + 1, close);
        let last_line = line + newlines(content);
        Ok(
            ScanStep {
                token: Some(
                    TokenView {
                        ttype: TokenType::String,
                        lexeme: ""@,
                        literal: Some(ObjectView::Str(content)),
                        src_line: last_line as usize,
                        src_start: (pos + 1) as usize,
                        src_end: close as usize,
                    },
                ),
                next: close + 1,
                line: last_line,
            },
        )
    }
}

/// The step over the number literal that starts at `pos`.
pub open spec fn number_step(src: Seq<char>, pos: int, line: int) -> Result<
    ScanStep,
    LoxResultView,
> {
    let end = numeral_end(src, pos);
    match double_of_numeral(src.subrange(pos, end)) {
        Some(bits) => Ok(
            ScanStep {
                token: Some(
                    TokenView {
                        ttype: TokenType::Number,
                        lexeme: ""@,
                        literal: Some(ObjectView::Num(bits)),
                        src_line: line as usize,
                        src_start: pos as usize,
                        src_end: end as usize,
                    },
                ),
                next: end,
                line,
            },
        ),
        None => Err(
            LoxResultView::Scanner { c: src[pos], error_type: ScannerErrorType::InvalidCharacter },
        ),
    }
}

/// The step over the identifier or reserved word that starts at `pos`.
pub open spec fn identifier_step(src: Seq<char>, pos: int, line: int) -> Result<
    ScanStep,
    LoxResultView,
> {
    let end = identifier_end(src, pos + 1);
    let text = src.subrange(pos, end);
    Ok(
        ScanStep {
            token: Some(
                TokenView {
                    ttype: match reserved_word(text) {
                        Some(ttype) => ttype,
                        None => TokenType::Identifier,
                    },
                    lexeme: text,
                    literal: None,
                    src_line: line as usize,
                    src_start: pos as usize,
                    src_end: end as usize,
                },
            ),
            next: end,
            line,
        },
    )
}

/// The step over the lexeme that starts at `pos`, or the error that it is.
pub open spec fn scan_step(src: Seq<char>, pos: int, line: int) -> Result<ScanStep, LoxResultView>
    recommends
        0 <= pos < src.len(),
{
    let c = src[pos];
    if c == '(' {
        token_step(TokenType::LeftParen, "("@, pos, line, 1)
    } else if c == ')' {
        token_step(TokenType::RightParen, ")"@, pos, line, 1)
    } else if c == '{' {
        token_step(TokenType::LeftBrace, "{"@, pos, line, 1)
    } else if c == '}' {
        token_step(TokenType::RightBrace, "}"@, pos, line, 1)
    } else if c == ',' {
        token_step(TokenType::Comma, ","@, pos, line, 1)
    } else if c == '.' {
        token_step(TokenType::Dot, "."@, pos, line, 1)
    } else if c == '-' {
        token_step(TokenType::Minus, "-"@, pos, line, 1)
    } else if c == '+' {
        token_step(TokenType::Plus, "+"@, pos, line, 1)
    } else if c == ';' {
        token_step(TokenType::Semicolon, ";"@, pos, line, 1)
    } else if c == '*' {
        token_step(TokenType::Star, "*"@, pos, line, 1)
    } else if c == '!' {
        operator_step(src, pos, line, TokenType::Bang, "!"@, TokenType::BangEqual, "!="@)
    } else if c == '=' {
        operator_step(src, pos, line, TokenType::Equal, "="@, TokenType::EqualEqual, "=="@)
    } else if c == '<' {
        operator_step(src, pos, line, TokenType::Less, "<"@, TokenType::LessEqual, "<="@)
    } else if c == '>' {
        operator_step(src, pos, line, TokenType::Greater, ">"@, TokenType::GreaterEqual, ">="@)
    } else if c == '/' {
        if pos + 1 < src.len() && src[pos + 1] == '/' {
            Ok(ScanStep { token: None, next: find_char(src, pos + 2, '\n'), line })
        } else {
            token_step(TokenType::Slash, "/"@, pos, line, 1)
        }
    } else if c == ' ' || c == '\r' || c == '\t' {
        Ok(ScanStep { token: None, next: pos + 1, line })
    } else if c == '\n' {
        Ok(ScanStep { token: None, next: pos + 1, line: line + 1 })
    } else if c == '"' {
        string_step(src, pos, line)
    } else if is_digit(c) {
        number_step(src, pos, line)
    } else if starts_identifier(c) {
        identifier_step(src, pos, line)
    } else {
        Err(LoxResultView::Scanner { c, error_type: ScannerErrorType::InvalidCharacter })
    }
}

/// The tokens already made, with the token of a step added where it makes
/// one.
pub open spec fn with_token(tokens: Seq<TokenView>, token: Option<TokenView>) -> Seq<TokenView> {
    match token {
        Some(t) => tokens.push(t),
        None => tokens,
    }
}

/// The tokens of the source from `pos` on, after the tokens already made:
/// lexeme by lexeme up to the first error, and the end-of-input token last.
pub open spec fn scan_from(src: Seq<char>, pos: int, line: int, tokens: Seq<TokenView>) -> Result<
    Seq<TokenView>,
    LoxResultView,
>
    decreases src.len() - pos,
{
    if pos < 0 || pos >= src.len() {
        Ok(tokens.push(plain_token(TokenType::Eof, ""@, line as usize, pos as usize, 1)))
    } else {
        match scan_step(src, pos, line) {
            Err(e) => Err(e),
            Ok(step) => if pos < step.next <= src.len() {
                scan_from(src, step.next, step.line, with_token(tokens, step.token))
            } else {
                Ok(tokens)
            },
        }
    }
}

/// The tokens of a source text.
pub open spec fn scan(src: Seq<char>) -> Result<Seq<TokenView>, LoxResultView> {
    scan_from(src, 0, 1, Seq::empty())
}

/// Scanning makes at most one token of each character, and the end token;
/// and the error in which it ends is one of the scanner's.
pub proof fn lemma_scan_from_bounds(src: Seq<char>, pos: int, line: int, made: Seq<TokenView>)
    requires
        0 <= pos <= src.len(),
    ensures
        match scan_from(src, pos, line, made) {
            Ok(tokens) => tokens.len() <= made.len() + (src.len() - pos) + 1,
            Err(e) => e is Scanner,
        },
    decreases src.len() - pos,
{
    if pos < src.len() {
        match scan_step(src, pos, line) {
            Err(_) => {},
            Ok(step) => {
                if pos < step.next <= src.len() {
                    lemma_scan_from_bounds(
                        src,
                        step.next,
                        step.line,
                        with_token(made, step.token),
                    );
                }
            },
        }
    }
}

/// Turns source text into tokens.
pub struct Scanner {
    /// The source text.
    pub source: String,
    /// The tokens made so far.
    pub tokens: Vec<Token>,
    /// The characters of the source.
    pub chars: Vec<char>,
    /// Where the lexeme being scanned starts.
    pub start: usize,
    /// Where the scanner stands.
    pub current: usize,
    /// The line on which the scanner stands.
    pub line: usize,
}

proof fn lemma_digits_end(src: Seq<char>, pos: int)
    requires
        0 <= pos <= src.len(),
    ensures
        pos <= digits_end(src, pos) <= src.len(),
        forall|i: int| pos <= i < digits_end(src, pos) ==> is_digit(#[trigger] src[i]),
    decreases src.len() - pos,
{
    if pos < src.len() && is_digit(src[pos]) {
        lemma_digits_end(src, pos + 1);
    }
}

/// The characters of a text, in order.
pub fn characters(text: &str) -> (r: Vec<char>)
    ensures
        r@ == text@,
{
    broadcast use group_string_axioms;

    let mut out: Vec<char> = Vec::new();
    let mut it = text.chars();
    loop
        invariant
            out@ + it.remaining() == text@,
            it.obeys_prophetic_iter_laws(),
            it.decrease() is Some,
        ensures
            out@ == text@,
        decreases it.decrease()->0,
    {
        match it.next() {
            Some(c) => {
                out.push(c);
            },
            None => {
                assert(out@ + it.remaining() =~= out@);
                break;
            },
        }
    }
    out
}

/// The text that the characters from `from` up to `to` make.
pub fn text_of(chars: &Vec<char>, from: usize, to: usize) -> (r: String)
    requires
        from <= to <= chars.len(),
    ensures
        r@ == chars@.subrange(from as int, to as int),
{
    let mut out = String::new();
    let mut i: usize = from;
    while i < to
        invariant
            from <= i <= to <= chars.len(),
            out@ == chars@.subrange(from as int, i as int),
        decreases to - i,
    {
        out.push(chars[i]);
        i += 1;
        assert(out@ =~= chars@.subrange(from as int, i as int));
    }
    out
}

fn digit_char(c: char) -> (r: bool)
    ensures
        r == is_digit(c),
{
    c >= '0' && c <= '9'
}

fn run_digits(chars: &Vec<char>, from: usize) -> (end: usize)
    requires
        from <= chars.len(),
    ensures
        end == digits_end(chars@, from as int),
        from <= end <= chars.len(),
{
    let mut i: usize = from;
    while i < chars.len() && digit_char(chars[i])
        invariant
            from <= i <= chars.len(),
            digits_end(chars@, i as int) == digits_end(chars@, from as int),
        decreases chars.len() - i,
    {
        i += 1;
    }
    i
}

fn run_identifier(chars: &Vec<char>, from: usize) -> (end: usize)
    requires
        from <= chars.len(),
    ensures
        end == identifier_end(chars@, from as int),
        from <= end <= chars.len(),
{
    let mut i: usize = from;
    while i < chars.len() && (chars[i].is_alphanumeric() || chars[i] == '_')
        invariant
            from <= i <= chars.len(),
            identifier_end(chars@, i as int) == identifier_end(chars@, from as int),
        decreases chars.len() - i,
    {
        i += 1;
    }
    i
}

fn run_until(chars: &Vec<char>, from: usize, stop: char) -> (end: usize)
    requires
        from <= chars.len(),
    ensures
        end == find_char(chars@, from as int, stop),
        from <= end <= chars.len(),
{
    let mut i: usize = from;
    while i < chars.len() && chars[i] != stop
        invariant
            from <= i <= chars.len(),
            find_char(chars@, i as int, stop) == find_char(chars@, from as int, stop),
        decreases chars.len() - i,
    {
        i += 1;
    }
    i
}

fn count_newlines(chars: &Vec<char>, from: usize, to: usize) -> (n: usize)
    requires
        from <= to <= chars.len(),
    ensures
        n == newlines(chars@.subrange(from as int, to as int)),
        n <= to - from,
{
    let mut n: usize = 0;
    let mut i: usize = from;
    while i < to
        invariant
            from <= i <= to <= chars.len(),
            n == newlines(chars@.subrange(from as int, i as int)),
            n <= i - from,
        decreases to - i,
    {
        assert(chars@.subrange(from as int, i + 1).drop_last() =~= chars@.subrange(
            from as int,
            i as int,
        ));
        if chars[i] == '\n' {
            n += 1;
        }
        i += 1;
    }
    n
}

/// The kind of a reserved word, `None` for any other text.
pub fn reserved(text: &str) -> (r: Option<TokenType>)
    ensures
        r == reserved_word(text@),
{
    if *text == *"and" {
        Some(TokenType::And)
    } else if *text == *"class" {
        Some(TokenType::Class)
    } else if *text == *"else" {
        Some(TokenType::Else)
    } else if *text == *"false" {
        Some(TokenType::False)
    } else if *text == *"for" {
        Some(TokenType::For)
    } else if *text == *"fun" {
        Some(TokenType::Fun)
    } else if *text == *"if" {
        Some(TokenType::If)
    } else if *text == *"nil" {
        Some(TokenType::Nil)
    } else if *text == *"or" {
        Some(TokenType::Or)
    } else if *text == *"print" {
        Some(TokenType::Print)
    } else if *text == *"return" {
        Some(TokenType::Return)
    } else if *text == *"super" {
        Some(TokenType::Super)
    } else if *text == *"this" {
        Some(TokenType::This)
    } else if *text == *"true" {
        Some(TokenType::True)
    } else if *text == *"var" {
        Some(TokenType::Var)
    } else if *text == *"while" {
        Some(TokenType::While)
    } else {
        None
    }
}

impl Scanner {
    /// The scanner keeps within its source, and its line counter can still
    /// grow.
    pub open spec fn wf(&self) -> bool {
        &&& self.chars@ == self.source@
        &&& self.chars.len() < usize::MAX
        &&& self.start <= self.current <= self.chars.len()
        &&& 1 <= self.line <= self.current + 1
    }

    /// The models of the tokens made so far.
    pub open spec fn made(&self) -> Seq<TokenView> {
        tokens_view(self.tokens@)
    }

    /// A scanner at the start of `source`.
    pub fn new(source: String) -> (r: Scanner)
        requires
            source@.len() < usize::MAX,
        ensures
            r.wf(),
            r.source@ == source@,
            r.current == 0,
            r.line == 1,
            r.made() == Seq::<TokenView>::empty(),
    {
        let chars = characters(source.as_str());
        let r = Scanner { source, tokens: Vec::new(), chars, start: 0, current: 0, line: 1 };
        assert(r.made() =~= Seq::<TokenView>::empty());
        r
    }

    /// Scans the rest of the source: the tokens made before, then those of
    /// the lexemes up to the end of the source, then the end-of-input token;
    /// or the first error.
    pub fn scan_tokens(&mut self) -> (r: Result<&Vec<Token>, LoxResult>)
        requires
            old(self).wf(),
        ensures
            final(self).wf(),
            final(self).source@ == old(self).source@,
            match scan_from(
                old(self).source@,
                old(self).current as int,
                old(self).line as int,
                old(self).made(),
            ) {
                Ok(tokens) => r is Ok && tokens_view(r->Ok_0@) == tokens && final(self).made()
                    == tokens,
                Err(e) => r is Err && r->Err_0@ == e,
            },
    {
        while !self.is_at_end()
            invariant
                self.wf(),
                self.source@ == old(self).source@,
                scan_from(self.source@, self.current as int, self.line as int, self.made())
                    == scan_from(
                    old(self).source@,
                    old(self).current as int,
                    old(self).line as int,
                    old(self).made(),
                ),
            decreases self.chars.len() - self.current,
        {
            self.start = self.current;
            match self.scan_token() {
                Ok(_) => {},
                Err(e) => {
                    return Err(e);
                },
            }
        }
        let eof = Token::eof(self.line, self.current);
        self.push_token(eof);
        Ok(&self.tokens)
    }

    /// Whether the scanner stands at the end of the source.
    fn is_at_end(&self) -> (r: bool)
        requires
            self.wf(),
        ensures
            r == (self.current >= self.chars.len()),
    {
        self.current == self.chars.len()
    }

    fn push_token(&mut self, token: Token)
        ensures
            final(self).made() == old(self).made().push(token@),
            final(self).source == old(self).source,
            final(self).chars == old(self).chars,
            final(self).start == old(self).start,
            final(self).current == old(self).current,
            final(self).line == old(self).line,
    {
        proof {
            lemma_tokens_view_push(self.tokens@, token);
        }
        self.tokens.push(token);
    }

    /// Scans the lexeme at which the scanner stands.
    fn scan_token(&mut self) -> (r: Result<(), LoxResult>)
        requires
            old(self).wf(),
            old(self).current < old(self).chars.len(),
            old(self).start == old(self).current,
        ensures
            final(self).wf(),
            final(self).source == old(self).source,
            final(self).chars == old(self).chars,
            match scan_step(old(self).source@, old(self).current as int, old(self).line as int) {
                Ok(step) => {
                    &&& r is Ok
                    &&& final(self).current == step.next
                    &&& final(self).line == step.line
                    &&& final(self).made() == with_token(old(self).made(), step.token)
                    &&& step.next > old(self).current
                },
                Err(e) => r is Err && r->Err_0@ == e,
            },
    {
        let c = self.advance();
        if c == '(' {
            self.push_token(Token::left_paren(self.line, self.start));
        } else if c == ')' {
            self.push_token(Token::right_paren(self.line, self.start));
        } else if c == '{' {
            self.push_token(Token::left_brace(self.line, self.start));
        } else if c == '}' {
            self.push_token(Token::right_brace(self.line, self.start));
        } else if c == ',' {
            self.push_token(Token::comma(self.line, self.start));
        } else if c == '.' {
            self.push_token(Token::dot(self.line, self.start));
        } else if c == '-' {
            self.push_token(Token::minus(self.line, self.start));
        } else if c == '+' {
            self.push_token(Token::plus(self.line, self.start));
        } else if c == ';' {
            self.push_token(Token::semicolon(self.line, self.start));
        } else if c == '*' {
            self.push_token(Token::star(self.line, self.start));
        } else if c == '!' {
            if self.match_next('=') {
                self.push_token(Token::bang_equal(self.line, self.start));
            } else {
                self.push_token(Token::bang(self.line, self.start));
            }
        } else if c == '=' {
            if self.match_next('=') {
                self.push_token(Token::equal_equal(self.line, self.start));
            } else {
                self.push_token(Token::equal(self.line, self.start));
            }
        } else if c == '<' {
            if self.match_next('=') {
                self.push_token(Token::less_equal(self.line, self.start));
            } else {
                self.push_token(Token::less(self.line, self.start));
            }
        } else if c == '>' {
            if self.match_next('=') {
                self.push_token(Token::greater_equal(self.line, self.start));
            } else {
                self.push_token(Token::greater(self.line, self.start));
            }
        } else if c == '/' {
            if self.match_next('/') {
                self.current = run_until(&self.chars, self.current, '\n');
            } else {
                self.push_token(Token::slash(self.line, self.start));
            }
        } else if c == ' ' || c == '\r' || c == '\t' {
        } else if c == '\n' {
            self.line += 1;
        } else if c == '"' {
            return self.scan_string();
        } else if digit_char(c) {
            return self.scan_number();
        } else if c.is_alphabetic() || c == '_' {
            self.scan_identifier();
        } else {
            return Err(LoxResult::Scanner { c, error_type: ScannerErrorType::InvalidCharacter });
        }
        Ok(())
    }

    /// Steps over the character at which the scanner stands, and returns it.
    fn advance(&mut self) -> (c: char)
        requires
            old(self).wf(),
            old(self).current < old(self).chars.len(),
        ensures
            final(self).wf(),
            c == old(self).chars@[old(self).current as int],
            final(self).current == old(self).current + 1,
            final(self).source == old(self).source,
            final(self).chars == old(self).chars,
            final(self).tokens == old(self).tokens,
            final(self).start == old(self).start,
            final(self).line == old(self).line,
    {
        let c = self.chars[self.current];
        self.current += 1;
        c
    }

    /// Steps over the character at which the scanner stands if it is
    /// `expected`, and tells whether it did.
    fn match_next(&mut self, expected: char) -> (r: bool)
        requires
            old(self).wf(),
        ensures
            final(self).wf(),
            r == (old(self).current < old(self).chars.len() && old(self).chars@[old(
                self,
            ).current as int] == expected),
            final(self).current == old(self).current + if r {
                1int
            } else {
                0int
            },
            final(self).source == old(self).source,
            final(self).chars == old(self).chars,
            final(self).tokens == old(self).tokens,
            final(self).start == old(self).start,
            final(self).line == old(self).line,
    {
        if self.is_at_end() {
            return false;
        }
        if self.chars[self.current] != expected {
            return false;
        }
        self.current += 1;
        true
    }

    /// The character at which the scanner stands, `'\0'` at the end.
    fn peek(&self) -> (c: char)
        requires
            self.wf(),
        ensures
            c == if self.current < self.chars.len() {
                self.chars@[self.current as int]
            } else {
                '\0'
            },
    {
        if self.is_at_end() {
            return '\0';
        }
        self.chars[self.current]
    }

    /// The character after the one at which the scanner stands, `'\0'` where
    /// there is none.
    fn peek_next(&self) -> (c: char)
        requires
            self.wf(),
        ensures
            c == if self.current + 1 < self.chars.len() {
                self.chars@[self.current + 1]
            } else {
                '\0'
            },
    {
        if self.current + 1 >= self.chars.len() {
            return '\0';
        }
        self.chars[self.current + 1]
    }

    /// Scans a string literal whose opening quote was just stepped over.
    fn scan_string(&mut self) -> (r: Result<(), LoxResult>)
        requires
            old(self).wf(),
            old(self).current == old(self).start + 1,
        ensures
            final(self).wf(),
            final(self).source == old(self).source,
            final(self).chars == old(self).chars,
            match string_step(old(self).source@, old(self).start as int, old(self).line as int) {
                Ok(step) => {
                    &&& r is Ok
                    &&& final(self).current == step.next
                    &&& final(self).line == step.line
                    &&& final(self).made() == with_token(old(self).made(), step.token)
                    &&& step.next > old(self).start + 1
                },
                Err(e) => r is Err && r->Err_0@ == e,
            },
    {
        let close = run_until(&self.chars, self.current, '"');
        self.line += count_newlines(&self.chars, self.current, close);
        self.current = close;
        if self.is_at_end() {
            return Err(
                LoxResult::Scanner { c: '"', error_type: ScannerErrorType::UnterminatedString },
            );
        }
        self.advance();
        let content = text_of(&self.chars, self.start + 1, close);
        assert(content@.len() == close - (self.start + 1));
        self.push_token(Token::string(self.line, self.start + 1, content.as_str()));
        Ok(())
    }

    /// Scans a number literal whose first digit was just stepped over.
    fn scan_number(&mut self) -> (r: Result<(), LoxResult>)
        requires
            old(self).wf(),
            old(self).current == old(self).start + 1,
            is_digit(old(self).chars@[old(self).start as int]),
        ensures
            final(self).wf(),
            final(self).source == old(self).source,
            final(self).chars == old(self).chars,
            match number_step(old(self).source@, old(self).start as int, old(self).line as int) {
                Ok(step) => {
                    &&& r is Ok
                    &&& final(self).current == step.next
                    &&& final(self).line == step.line
                    &&& final(self).made() == with_token(old(self).made(), step.token)
                    &&& step.next > old(self).start
                },
                Err(e) => r is Err && r->Err_0@ == e,
            },
    {
        let whole = run_digits(&self.chars, self.current);
        self.current = whole;
        let fraction = self.peek() == '.' && digit_char(self.peek_next());
        if fraction {
            self.current = run_digits(&self.chars, whole + 1);
        }
        let text = text_of(&self.chars, self.start, self.current);
        proof {
            let src = self.chars@;
            lemma_digits_end(src, self.start as int);
            if fraction {
                lemma_digits_end(src, whole + 1);
            }
            assert(digits_end(src, self.start as int) == whole);
            let dot = whole - self.start;
            assert forall|i: int| 0 <= i < dot implies is_digit(#[trigger] text@[i]) by {
                assert(text@[i] == src[self.start + i]);
            }
            if fraction {
                assert(digits_end(src, whole + 1) == digits_end(src, whole + 2));
                lemma_digits_end(src, whole + 2);
                assert(text@[dot] == src[whole as int]);
                assert forall|i: int| dot < i < text@.len() implies is_digit(
                    #[trigger] text@[i],
                ) by {
                    assert(text@[i] == src[self.start + i]);
                }
            }
            assert(is_numeral_with(text@, dot));
        }
        match parse_numeral(text.as_str()) {
            Some(bits) => {
                self.push_token(Token::number(self.line, self.start, self.current, bits));
                Ok(())
            },
            None => Err(
                LoxResult::Scanner {
                    c: self.chars[self.start],
                    error_type: ScannerErrorType::InvalidCharacter,
                },
            ),
        }
    }

    /// Scans an identifier or a reserved word whose first character was just
    /// stepped over.
    fn scan_identifier(&mut self)
        requires
            old(self).wf(),
            old(self).current == old(self).start + 1,
        ensures
            final(self).wf(),
            final(self).source == old(self).source,
            final(self).chars == old(self).chars,
            final(self).line == old(self).line,
            final(self).current > old(self).start,
            Ok::<ScanStep, LoxResultView>(
                ScanStep {
                    token: Some(final(self).made().last()),
                    next: final(self).current as int,
                    line: old(self).line as int,
                },
            ) == identifier_step(old(self).source@, old(self).start as int, old(self).line as int),
            final(self).made() == old(self).made().push(final(self).made().last()),
    {
        self.current = run_identifier(&self.chars, self.current);
        let text = text_of(&self.chars, self.start, self.current);
        let token = match reserved(text.as_str()) {
            Some(ttype) => Token::identifier(
                self.line,
                self.start,
                self.current,
                ttype,
                text.as_str(),
            ),
            None => Token::identifier(
                self.line,
                self.start,
                self.current,
                TokenType::Identifier,
                text.as_str(),
            ),
        };
        self.push_token(token);
    }
}

} // verus!
