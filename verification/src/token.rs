//! Tokens and their kinds.

use vstd::prelude::*;
use vstd::string::StringExecFns;

verus! {

/// The closed set of token kinds.
#[derive(Debug, Clone, Copy, PartialEq, Eq, Structural)]
#[allow(non_camel_case_types)]
pub enum TokenType {
    // Single-character tokens
    LEFT_PAREN,
    RIGHT_PAREN,
    LEFT_BRACE,
    RIGHT_BRACE,
    COMMA,
    DOT,
    MINUS,
    PLUS,
    SEMICOLON,
    STAR,
    SLASH,
    // One or two character tokens
    EQUAL,
    EQUAL_EQUAL,
    BANG,
    BANG_EQUAL,
    LESS,
    LESS_EQUAL,
    GREATER,
    GREATER_EQUAL,
    // Literals
    IDENTIFIER,
    STRING,
    NUMBER,
    // Keywords
    AND,
    CLASS,
    ELSE,
    FALSE,
    FUN,
    FOR,
    IF,
    NIL,
    OR,
    PRINT,
    RETURN,
    SUPER,
    THIS,
    TRUE,
    VAR,
    WHILE,
    // End of input
    EOF,
}

/// The name under which a kind is printed: the variant's own name.
pub open spec fn kind_name(kind: TokenType) -> Seq<char> {
    match kind {
        TokenType::LEFT_PAREN => "LEFT_PAREN"@,
        TokenType::RIGHT_PAREN => "RIGHT_PAREN"@,
        TokenType::LEFT_BRACE => "LEFT_BRACE"@,
        TokenType::RIGHT_BRACE => "RIGHT_BRACE"@,
        TokenType::COMMA => "COMMA"@,
        TokenType::DOT => "DOT"@,
        TokenType::MINUS => "MINUS"@,
        TokenType::PLUS => "PLUS"@,
        TokenType::SEMICOLON => "SEMICOLON"@,
        TokenType::STAR => "STAR"@,
        TokenType::SLASH => "SLASH"@,
        TokenType::EQUAL => "EQUAL"@,
        TokenType::EQUAL_EQUAL => "EQUAL_EQUAL"@,
        TokenType::BANG => "BANG"@,
        TokenType::BANG_EQUAL => "BANG_EQUAL"@,
        TokenType::LESS => "LESS"@,
        TokenType::LESS_EQUAL => "LESS_EQUAL"@,
        TokenType::GREATER => "GREATER"@,
        TokenType::GREATER_EQUAL => "GREATER_EQUAL"@,
        TokenType::IDENTIFIER => "IDENTIFIER"@,
        TokenType::STRING => "STRING"@,
        TokenType::NUMBER => "NUMBER"@,
        TokenType::AND => "AND"@,
        TokenType::CLASS => "CLASS"@,
        TokenType::ELSE => "ELSE"@,
        TokenType::FALSE => "FALSE"@,
        TokenType::FUN => "FUN"@,
        TokenType::FOR => "FOR"@,
        TokenType::IF => "IF"@,
        TokenType::NIL => "NIL"@,
        TokenType::OR => "OR"@,
        TokenType::PRINT => "PRINT"@,
        TokenType::RETURN => "RETURN"@,
        TokenType::SUPER => "SUPER"@,
        TokenType::THIS => "THIS"@,
        TokenType::TRUE => "TRUE"@,
        TokenType::VAR => "VAR"@,
        TokenType::WHILE => "WHILE"@,
        TokenType::EOF => "EOF"@,
    }
}

impl TokenType {
    /// Whether tokens of this kind carry a literal value: strings and numbers do,
    /// no other kind does.
    pub open spec fn carries_literal(self) -> bool {
        self == TokenType::STRING || self == TokenType::NUMBER
    }

    /// The name under which the kind is printed.
    pub fn name(&self) -> (name: &'static str)
        ensures
            name@ == kind_name(*self),
    {
        match self {
            TokenType::LEFT_PAREN => "LEFT_PAREN",
            TokenType::RIGHT_PAREN => "RIGHT_PAREN",
            TokenType::LEFT_BRACE => "LEFT_BRACE",
            TokenType::RIGHT_BRACE => "RIGHT_BRACE",
            TokenType::COMMA => "COMMA",
            TokenType::DOT => "DOT",
            TokenType::MINUS => "MINUS",
            TokenType::PLUS => "PLUS",
            TokenType::SEMICOLON => "SEMICOLON",
            TokenType::STAR => "STAR",
            TokenType::SLASH => "SLASH",
            TokenType::EQUAL => "EQUAL",
            TokenType::EQUAL_EQUAL => "EQUAL_EQUAL",
            TokenType::BANG => "BANG",
            TokenType::BANG_EQUAL => "BANG_EQUAL",
            TokenType::LESS => "LESS",
            TokenType::LESS_EQUAL => "LESS_EQUAL",
            TokenType::GREATER => "GREATER",
            TokenType::GREATER_EQUAL => "GREATER_EQUAL",
            TokenType::IDENTIFIER => "IDENTIFIER",
            TokenType::STRING => "STRING",
            TokenType::NUMBER => "NUMBER",
            TokenType::AND => "AND",
            TokenType::CLASS => "CLASS",
            TokenType::ELSE => "ELSE",
            TokenType::FALSE => "FALSE",
            TokenType::FUN => "FUN",
            TokenType::FOR => "FOR",
            TokenType::IF => "IF",
            TokenType::NIL => "NIL",
            TokenType::OR => "OR",
            TokenType::PRINT => "PRINT",
            TokenType::RETURN => "RETURN",
            TokenType::SUPER => "SUPER",
            TokenType::THIS => "THIS",
            TokenType::TRUE => "TRUE",
            TokenType::VAR => "VAR",
            TokenType::WHILE => "WHILE",
            TokenType::EOF => "EOF",
        }
    }
}

/// One token: its kind, the exact source text it was built from, and, for
/// strings and numbers, the value in canonical form.
#[derive(Debug, Clone, PartialEq, Eq)]
pub struct Token {
    pub _type: TokenType,
    pub lexeme: String,
    pub value: Option<String>,
}

/// What a [`Token`] is, as mathematics.
pub struct TokenView {
    pub kind: TokenType,
    pub lexeme: Seq<char>,
    pub value: Option<Seq<char>>,
}

impl TokenView {
    /// A literal value is present exactly for the kinds that carry one.
    pub open spec fn well_formed(self) -> bool {
        self.value is Some <==> self.kind.carries_literal()
    }

    /// The line that prints the token: kind, lexeme and value, separated by
    /// single spaces, with `null` for an absent value.
    pub open spec fn rendered(self) -> Seq<char> {
        kind_name(self.kind) + seq![' '] + self.lexeme + seq![' '] + match self.value {
            Some(v) => v,
            None => "null"@,
        }
    }
}

/// A token without a literal value.
pub open spec fn plain_token(kind: TokenType, lexeme: Seq<char>) -> TokenView {
    TokenView { kind, lexeme, value: None }
}

/// A token that carries a literal value.
pub open spec fn literal_token(kind: TokenType, lexeme: Seq<char>, value: Seq<char>) -> TokenView {
    TokenView { kind, lexeme, value: Some(value) }
}

/// The marker that closes every scan.
pub open spec fn eof_token() -> TokenView {
    plain_token(TokenType::EOF, Seq::empty())
}

impl View for Token {
    type V = TokenView;

    open spec fn view(&self) -> TokenView {
        TokenView {
            kind: self._type,
            lexeme: self.lexeme@,
            value: match self.value {
                Some(v) => Some(v@),
                None => None,
            },
        }
    }
}

/// The views of a sequence of tokens, in order.
pub open spec fn token_views(tokens: Seq<Token>) -> Seq<TokenView> {
    tokens.map_values(|t: Token| t@)
}

/// Pushing a token pushes its view.
pub proof fn lemma_token_views_push(tokens: Seq<Token>, token: Token)
    ensures
        token_views(tokens.push(token)) == token_views(tokens).push(token@),
{
    assert(token_views(tokens.push(token)) =~= token_views(tokens).push(token@));
}

/// The views of a concatenation are the concatenation of the views.
pub proof fn lemma_token_views_concat(a: Seq<Token>, b: Seq<Token>)
    ensures
        token_views(a + b) == token_views(a) + token_views(b),
{
    assert(token_views(a + b) =~= token_views(a) + token_views(b));
}

impl Token {
    pub fn new(_type: TokenType, lexeme: String, value: Option<String>) -> (token: Self)
        ensures
            token._type == _type,
            token.lexeme == lexeme,
            token.value == value,
    {
        Token { _type, lexeme, value }
    }

    /// The line that prints the token.
    pub fn to_string(&self) -> (line: String)
        ensures
            line@ == self@.rendered(),
    {
        let mut line = String::from_str(self._type.name());
        line.push(' ');
        line.append(self.lexeme.as_str());
        line.push(' ');
        match &self.value {
            Some(v) => line.append(v.as_str()),
            None => line.append("null"),
        }
        proof {
            let name = kind_name(self._type);
            let tail = match self@.value {
                Some(v) => v,
                None => "null"@,
            };
            assert(line@ =~= name + seq![' '] + self.lexeme@ + seq![' '] + tail);
        }
        line
    }
}

} // verus!
