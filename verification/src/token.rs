use crate::object::{Object, ObjectView};
use crate::text::{decimal, push_decimal, push_text};
use crate::token_type::TokenType;
use vstd::prelude::*;
use vstd::std_specs::cmp::PartialEqSpecImpl;
use vstd::string::StrSliceExecFns;

verus! {

/// A lexical unit: its kind, its text, the value of a literal, and where it
/// stands in the source.
#[derive(Debug)]
pub struct Token {
    pub ttype: TokenType,
    pub lexeme: String,
    pub literal: Option<Object>,
    pub src_line: usize,
    pub src_start: usize,
    pub src_end: usize,
}

/// The mathematical model of a [`Token`].
pub struct TokenView {
    pub ttype: TokenType,
    pub lexeme: Seq<char>,
    pub literal: Option<ObjectView>,
    pub src_line: usize,
    pub src_start: usize,
    pub src_end: usize,
}

impl View for Token {
    type V = TokenView;

    open spec fn view(&self) -> TokenView {
        TokenView {
            ttype: self.ttype,
            lexeme: self.lexeme@,
            literal: match self.literal {
                Some(value) => Some(value@),
                None => None,
            },
            src_line: self.src_line,
            src_start: self.src_start,
            src_end: self.src_end,
        }
    }
}

/// The models of a sequence of tokens.
pub open spec fn tokens_view(tokens: Seq<Token>) -> Seq<TokenView> {
    Seq::new(tokens.len(), |i: int| tokens[i]@)
}

/// The models of tokens with one more are the models with one more.
pub proof fn lemma_tokens_view_push(tokens: Seq<Token>, token: Token)
    ensures
        tokens_view(tokens.push(token)) == tokens_view(tokens).push(token@),
{
    assert(tokens_view(tokens.push(token)) =~= tokens_view(tokens).push(token@));
}

/// A token without a literal value that starts at `src_at` and is `width`
/// characters wide.
pub open spec fn plain_token(
    ttype: TokenType,
    lexeme: Seq<char>,
    src_line: usize,
    src_at: usize,
    width: usize,
) -> TokenView {
    TokenView {
        ttype,
        lexeme,
        literal: None,
        src_line,
        src_start: src_at,
        src_end: (src_at + width) as usize,
    }
}

/// Two tokens are the same when kind and text agree, whatever their literal
/// values and wherever they stand in the source.
pub open spec fn tokens_equal(a: TokenView, b: TokenView) -> bool {
    a.ttype == b.ttype && a.lexeme == b.lexeme
}

/// The text `Line l [s:e]` that places a token in the source.
pub open spec fn location_text(token: TokenView) -> Seq<char> {
    "Line "@ + decimal(token.src_line as nat) + " ["@ + decimal(token.src_start as nat) + ":"@
        + decimal(token.src_end as nat) + "]"@
}

impl Clone for Token {
    fn clone(&self) -> (r: Self)
        ensures
            r@ == self@,
    {
        Token {
            ttype: self.ttype,
            lexeme: self.lexeme.clone(),
            literal: match &self.literal {
                Some(value) => Some(value.clone()),
                None => None,
            },
            src_line: self.src_line,
            src_start: self.src_start,
            src_end: self.src_end,
        }
    }
}

impl Eq for Token {

}

impl PartialEq for Token {
    fn eq(&self, other: &Self) -> (r: bool) {
        self.ttype == other.ttype && self.lexeme == other.lexeme
    }
}

impl std::hash::Hash for Token {
    /// Feeds the kind and the text of the token to the hasher, and nothing
    /// else: tokens that are equal hash alike.
    #[verifier::external_body]
    fn hash<H: std::hash::Hasher>(&self, state: &mut H) {
        self.ttype.hash(state);
        self.lexeme.hash(state);
    }
}

impl PartialEqSpecImpl for Token {
    open spec fn obeys_eq_spec() -> bool {
        true
    }

    open spec fn eq_spec(&self, other: &Self) -> bool {
        tokens_equal(self@, other@)
    }
}

impl Token {
    /// The text `Line l [s:e]` that places the token in the source.
    pub fn location(&self) -> (r: String)
        ensures
            r@ == location_text(self@),
    {
        let mut out = String::new();
        push_text(&mut out, "Line ");
        push_decimal(&mut out, self.src_line);
        push_text(&mut out, " [");
        push_decimal(&mut out, self.src_start);
        push_text(&mut out, ":");
        push_decimal(&mut out, self.src_end);
        push_text(&mut out, "]");
        out
    }

    /// The token of the end of the input at `src_at`.
    pub fn eof(src_line: usize, src_at: usize) -> (r: Token)
        requires
            src_at < usize::MAX,
        ensures
            r@ == plain_token(TokenType::Eof, ""@, src_line, src_at, 1),
    {
        Token {
            ttype: TokenType::Eof,
            lexeme: "".to_owned(),
            literal: None,
            src_line,
            src_start: src_at,
            src_end: src_at + 1,
        }
    }

    /// The token of `(` at `src_at`.
    pub fn left_paren(src_line: usize, src_at: usize) -> (r: Token)
        requires
            src_at < usize::MAX,
        ensures
            r@ == plain_token(TokenType::LeftParen, "("@, src_line, src_at, 1),
    {
        Token {
            ttype: TokenType::LeftParen,
            lexeme: "(".to_owned(),
            literal: None,
            src_line,
            src_start: src_at,
            src_end: src_at + 1,
        }
    }

    /// The token of `)` at `src_at`.
    pub fn right_paren(src_line: usize, src_at: usize) -> (r: Token)
        requires
            src_at < usize::MAX,
        ensures
            r@ == plain_token(TokenType::RightParen, ")"@, src_line, src_at, 1),
    {
        Token {
            ttype: TokenType::RightParen,
            lexeme: ")".to_owned(),
            literal: None,
            src_line,
            src_start: src_at,
            src_end: src_at + 1,
        }
    }

    /// The token of `{` at `src_at`.
    pub fn left_brace(src_line: usize, src_at: usize) -> (r: Token)
        requires
            src_at < usize::MAX,
        ensures
            r@ == plain_token(TokenType::LeftBrace, "{"@, src_line, src_at, 1),
    {
        Token {
            ttype: TokenType::LeftBrace,
            lexeme: "{".to_owned(),
            literal: None,
            src_line,
            src_start: src_at,
            src_end: src_at + 1,
        }
    }

    /// The token of `}` at `src_at`.
    pub fn right_brace(src_line: usize, src_at: usize) -> (r: Token)
        requires
            src_at < usize::MAX,
        ensures
            r@ == plain_token(TokenType::RightBrace, "}"@, src_line, src_at, 1),
    {
        Token {
            ttype: TokenType::RightBrace,
            lexeme: "}".to_owned(),
            literal: None,
            src_line,
            src_start: src_at,
            src_end: src_at + 1,
        }
    }

    /// The token of `,` at `src_at`.
    pub fn comma(src_line: usize, src_at: usize) -> (r: Token)
        requires
            src_at < usize::MAX,
        ensures
            r@ == plain_token(TokenType::Comma, ","@, src_line, src_at, 1),
    {
        Token {
            ttype: TokenType::Comma,
            lexeme: ",".to_owned(),
            literal: None,
            src_line,
            src_start: src_at,
            src_end: src_at + 1,
        }
    }

    /// The token of `.` at `src_at`.
    pub fn dot(src_line: usize, src_at: usize) -> (r: Token)
        requires
            src_at < usize::MAX,
        ensures
            r@ == plain_token(TokenType::Dot, "."@, src_line, src_at, 1),
    {
        Token {
            ttype: TokenType::Dot,
            lexeme: ".".to_owned(),
            literal: None,
            src_line,
            src_start: src_at,
            src_end: src_at + 1,
        }
    }

    /// The token of `-` at `src_at`.
    pub fn minus(src_line: usize, src_at: usize) -> (r: Token)
        requires
            src_at < usize::MAX,
        ensures
            r@ == plain_token(TokenType::Minus, "-"@, src_line, src_at, 1),
    {
        Token {
            ttype: TokenType::Minus,
            lexeme: "-".to_owned(),
            literal: None,
            src_line,
            src_start: src_at,
            src_end: src_at + 1,
        }
    }

    /// The token of `+` at `src_at`.
    pub fn plus(src_line: usize, src_at: usize) -> (r: Token)
        requires
            src_at < usize::MAX,
        ensures
            r@ == plain_token(TokenType::Plus, "+"@, src_line, src_at, 1),
    {
        Token {
            ttype: TokenType::Plus,
            lexeme: "+".to_owned(),
            literal: None,
            src_line,
            src_start: src_at,
            src_end: src_at + 1,
        }
    }

    /// The token of `;` at `src_at`.
    pub fn semicolon(src_line: usize, src_at: usize) -> (r: Token)
        requires
            src_at < usize::MAX,
        ensures
            r@ == plain_token(TokenType::Semicolon, ";"@, src_line, src_at, 1),
    {
        Token {
            ttype: TokenType::Semicolon,
            lexeme: ";".to_owned(),
            literal: None,
            src_line,
            src_start: src_at,
            src_end: src_at + 1,
        }
    }

    /// The token of `*` at `src_at`.
    pub fn star(src_line: usize, src_at: usize) -> (r: Token)
        requires
            src_at < usize::MAX,
        ensures
            r@ == plain_token(TokenType::Star, "*"@, src_line, src_at, 1),
    {
        Token {
            ttype: TokenType::Star,
            lexeme: "*".to_owned(),
            literal: None,
            src_line,
            src_start: src_at,
            src_end: src_at + 1,
        }
    }

    /// The token of `!` at `src_at`.
    pub fn bang(src_line: usize, src_at: usize) -> (r: Token)
        requires
            src_at < usize::MAX,
        ensures
            r@ == plain_token(TokenType::Bang, "!"@, src_line, src_at, 1),
    {
        Token {
            ttype: TokenType::Bang,
            lexeme: "!".to_owned(),
            literal: None,
            src_line,
            src_start: src_at,
            src_end: src_at + 1,
        }
    }

    /// The token of `!=` at `src_at`.
    pub fn bang_equal(src_line: usize, src_at: usize) -> (r: Token)
        requires
            src_at + 1 < usize::MAX,
        ensures
            r@ == plain_token(TokenType::BangEqual, "!="@, src_line, src_at, 2),
    {
        Token {
            ttype: TokenType::BangEqual,
            lexeme: "!=".to_owned(),
            literal: None,
            src_line,
            src_start: src_at,
            src_end: src_at + 2,
        }
    }

    /// The token of `=` at `src_at`.
    pub fn equal(src_line: usize, src_at: usize) -> (r: Token)
        requires
            src_at < usize::MAX,
        ensures
            r@ == plain_token(TokenType::Equal, "="@, src_line, src_at, 1),
    {
        Token {
            ttype: TokenType::Equal,
            lexeme: "=".to_owned(),
            literal: None,
            src_line,
            src_start: src_at,
            src_end: src_at + 1,
        }
    }

    /// The token of `==` at `src_at`.
    pub fn equal_equal(src_line: usize, src_at: usize) -> (r: Token)
        requires
            src_at + 1 < usize::MAX,
        ensures
            r@ == plain_token(TokenType::EqualEqual, "=="@, src_line, src_at, 2),
    {
        Token {
            ttype: TokenType::EqualEqual,
            lexeme: "==".to_owned(),
            literal: None,
            src_line,
            src_start: src_at,
            src_end: src_at + 2,
        }
    }

    /// The token of `<` at `src_at`.
    pub fn less(src_line: usize, src_at: usize) -> (r: Token)
        requires
            src_at < usize::MAX,
        ensures
            r@ == plain_token(TokenType::Less, "<"@, src_line, src_at, 1),
    {
        Token {
            ttype: TokenType::Less,
            lexeme: "<".to_owned(),
            literal: None,
            src_line,
            src_start: src_at,
            src_end: src_at + 1,
        }
    }

    /// The token of `<=` at `src_at`.
    pub fn less_equal(src_line: usize, src_at: usize) -> (r: Token)
        requires
            src_at + 1 < usize::MAX,
        ensures
            r@ == plain_token(TokenType::LessEqual, "<="@, src_line, src_at, 2),
    {
        Token {
            ttype: TokenType::LessEqual,
            lexeme: "<=".to_owned(),
            literal: None,
            src_line,
            src_start: src_at,
            src_end: src_at + 2,
        }
    }

    /// The token of `>` at `src_at`.
    pub fn greater(src_line: usize, src_at: usize) -> (r: Token)
        requires
            src_at < usize::MAX,
        ensures
            r@ == plain_token(TokenType::Greater, ">"@, src_line, src_at, 1),
    {
        Token {
            ttype: TokenType::Greater,
            lexeme: ">".to_owned(),
            literal: None,
            src_line,
            src_start: src_at,
            src_end: src_at + 1,
        }
    }

    /// The token of `>=` at `src_at`.
    pub fn greater_equal(src_line: usize, src_at: usize) -> (r: Token)
        requires
            src_at + 1 < usize::MAX,
        ensures
            r@ == plain_token(TokenType::GreaterEqual, ">="@, src_line, src_at, 2),
    {
        Token {
            ttype: TokenType::GreaterEqual,
            lexeme: ">=".to_owned(),
            literal: None,
            src_line,
            src_start: src_at,
            src_end: src_at + 2,
        }
    }

    /// The token of `/` at `src_at`.
    pub fn slash(src_line: usize, src_at: usize) -> (r: Token)
        requires
            src_at < usize::MAX,
        ensures
            r@ == plain_token(TokenType::Slash, "/"@, src_line, src_at, 1),
    {
        Token {
            ttype: TokenType::Slash,
            lexeme: "/".to_owned(),
            literal: None,
            src_line,
            src_start: src_at,
            src_end: src_at + 1,
        }
    }

    /// The token of a string literal whose content is `s` and starts at `src_at`.
    pub fn string(src_line: usize, src_at: usize, s: &str) -> (r: Token)
        requires
            src_at + s@.len() <= usize::MAX,
        ensures
            r@ == (TokenView {
                ttype: TokenType::String,
                lexeme: ""@,
                literal: Some(ObjectView::Str(s@)),
                src_line,
                src_start: src_at,
                src_end: (src_at + s@.len()) as usize,
            }),
    {
        Token {
            ttype: TokenType::String,
            lexeme: "".to_owned(),
            literal: Some(Object::Str(s.to_owned())),
            src_line,
            src_start: src_at,
            src_end: src_at + s.unicode_len(),
        }
    }

    /// The token of a number literal whose value has the bit pattern `n`.
    pub fn number(src_line: usize, src_start: usize, src_end: usize, n: u64) -> (r: Token)
        ensures
            r@ == (TokenView {
                ttype: TokenType::Number,
                lexeme: ""@,
                literal: Some(ObjectView::Num(n)),
                src_line,
                src_start,
                src_end,
            }),
    {
        Token {
            ttype: TokenType::Number,
            lexeme: "".to_owned(),
            literal: Some(Object::Num(n)),
            src_line,
            src_start,
            src_end,
        }
    }

    /// The token of an identifier or a keyword with the text `l`.
    pub fn identifier(
        src_line: usize,
        src_start: usize,
        src_end: usize,
        ttype: TokenType,
        l: &str,
    ) -> (r: Token)
        ensures
            r@ == (TokenView { ttype, lexeme: l@, literal: None, src_line, src_start, src_end }),
    {
        Token { ttype, lexeme: l.to_owned(), literal: None, src_line, src_start, src_end }
    }
}

} // verus!
