//! Lexer for notification format strings: literal text, `%%` escapes and
//! `%name` field markers.

use vstd::prelude::*;
use vstd::utf8::*;

use crate::text::{chars_of, push_char};

verus! {

broadcast use {vstd::string::group_string_axioms, vstd::slice::group_slice_axioms};

pub struct Lexer {
    input: Vec<char>,
    index: usize,
    pos: usize,
}

#[derive(Debug, PartialEq, Eq)]
pub enum Token {
    Identifier(String),
    Literal(String),
}

#[derive(Debug, PartialEq, Eq, Clone, Copy, Structural)]
pub enum LexError {
    EmptyIdentifier { position: usize },
    InvalidIdentifierStart { position: usize, found: char },
}

/// The mathematical content of a [`Token`].
pub enum TokenModel {
    Identifier(Seq<char>),
    Literal(Seq<char>),
}

impl View for Token {
    type V = TokenModel;

    open spec fn view(&self) -> TokenModel {
        match self {
            Token::Identifier(s) => TokenModel::Identifier(s@),
            Token::Literal(s) => TokenModel::Literal(s@),
        }
    }
}

/// The byte width of `c` in UTF-8.
pub open spec fn utf8_width(c: char) -> nat {
    encode_scalar(c as u32).len()
}

/// The byte offset, in the UTF-8 encoding of `s`, of the character at index `i`.
pub open spec fn byte_offset(s: Seq<char>, i: int) -> nat {
    encode_utf8(s.take(i)).len()
}

pub open spec fn is_identifier_start_char(c: char) -> bool {
    ('a' <= c && c <= 'z') || ('A' <= c && c <= 'Z') || c == '_'
}

pub open spec fn is_identifier_continue_char(c: char) -> bool {
    is_identifier_start_char(c) || ('0' <= c && c <= '9')
}

/// The index of the first `%` at or after `i`, or the end of `s`.
pub open spec fn literal_end(s: Seq<char>, i: int) -> int
    decreases s.len() - i,
{
    if i >= s.len() || s[i] == '%' {
        i
    } else {
        literal_end(s, i + 1)
    }
}

/// The end of the run of identifier characters that starts at `i`.
pub open spec fn identifier_end(s: Seq<char>, i: int) -> int
    decreases s.len() - i,
{
    if i < s.len() && is_identifier_continue_char(s[i]) {
        identifier_end(s, i + 1)
    } else {
        i
    }
}

pub proof fn lemma_literal_end(s: Seq<char>, i: int)
    requires
        0 <= i,
    ensures
        i <= literal_end(s, i),
        i <= s.len() ==> literal_end(s, i) <= s.len(),
        forall|k: int| i <= k < literal_end(s, i) ==> s[k] != '%',
        literal_end(s, i) < s.len() ==> s[literal_end(s, i)] == '%',
    decreases s.len() - i,
{
    if i < s.len() && s[i] != '%' {
        lemma_literal_end(s, i + 1);
    }
}

pub proof fn lemma_identifier_end(s: Seq<char>, i: int)
    requires
        0 <= i,
    ensures
        i <= identifier_end(s, i),
        i <= s.len() ==> identifier_end(s, i) <= s.len(),
        forall|k: int| i <= k < identifier_end(s, i) ==> is_identifier_continue_char(s[k]),
        identifier_end(s, i) < s.len() ==> !is_identifier_continue_char(s[identifier_end(s, i)]),
    decreases s.len() - i,
{
    if i < s.len() && is_identifier_continue_char(s[i]) {
        lemma_identifier_end(s, i + 1);
    }
}

/// Puts `t` in front of the tokens of a successful result.
pub open spec fn prepend_token(
    t: TokenModel,
    rest: Result<Seq<TokenModel>, LexError>,
) -> Result<Seq<TokenModel>, LexError> {
    match rest {
        Ok(ts) => Ok(seq![t] + ts),
        Err(e) => Err(e),
    }
}

/// Puts `ts` in front of the tokens of a successful result.
pub open spec fn prepend_tokens(
    ts: Seq<TokenModel>,
    rest: Result<Seq<TokenModel>, LexError>,
) -> Result<Seq<TokenModel>, LexError> {
    match rest {
        Ok(more) => Ok(ts + more),
        Err(e) => Err(e),
    }
}

/// The tokens of `s` from character index `i` on, or the first error.
///
/// A literal runs up to the next `%`; `%%` starts a literal with one `%`;
/// `%` followed by an identifier start and identifier characters is an
/// identifier; a `%` at the end or before another character is an error
/// that reports the byte offset of the `%`.
pub open spec fn lex_from(s: Seq<char>, i: int) -> Result<Seq<TokenModel>, LexError>
    decreases s.len() - i,
{
    if i < 0 || i >= s.len() {
        Ok(seq![])
    } else if s[i] != '%' {
        let j = literal_end(s, i + 1);
        proof {
            lemma_literal_end(s, i + 1);
        }
        prepend_token(TokenModel::Literal(s.subrange(i, j)), lex_from(s, j))
    } else if i + 1 < s.len() && s[i + 1] == '%' {
        let j = literal_end(s, i + 2);
        proof {
            lemma_literal_end(s, i + 2);
        }
        prepend_token(TokenModel::Literal(seq!['%'] + s.subrange(i + 2, j)), lex_from(s, j))
    } else if i + 1 >= s.len() {
        Err(LexError::EmptyIdentifier { position: byte_offset(s, i) as usize })
    } else if !is_identifier_start_char(s[i + 1]) {
        Err(LexError::InvalidIdentifierStart { position: byte_offset(s, i) as usize, found: s[i + 1] })
    } else {
        let j = identifier_end(s, i + 2);
        proof {
            lemma_identifier_end(s, i + 2);
        }
        prepend_token(TokenModel::Identifier(s.subrange(i + 1, j)), lex_from(s, j))
    }
}

/// The tokens of the whole of `s`, or the first error.
pub open spec fn lex(s: Seq<char>) -> Result<Seq<TokenModel>, LexError> {
    lex_from(s, 0)
}

/// The models of a sequence of tokens.
pub open spec fn token_models(ts: Seq<Token>) -> Seq<TokenModel> {
    ts.map_values(|t: Token| t@)
}

pub proof fn lemma_encode_utf8_concat(a: Seq<char>, b: Seq<char>)
    ensures
        encode_utf8(a + b) == encode_utf8(a) + encode_utf8(b),
    decreases a.len(),
{
    if a.len() == 0 {
        assert(a + b =~= b);
        assert(encode_utf8(a) =~= seq![]);
        assert(encode_utf8(a) + encode_utf8(b) =~= encode_utf8(b));
    } else {
        lemma_encode_utf8_concat(a.drop_first(), b);
        assert((a + b).drop_first() =~= a.drop_first() + b);
        assert(encode_utf8(a + b) =~= encode_scalar(a[0] as u32) + encode_utf8(a.drop_first() + b));
        assert(encode_utf8(a) + encode_utf8(b) =~= encode_scalar(a[0] as u32) + (encode_utf8(
            a.drop_first(),
        ) + encode_utf8(b)));
    }
}

pub proof fn lemma_byte_offset_step(s: Seq<char>, i: int)
    requires
        0 <= i < s.len(),
    ensures
        byte_offset(s, i + 1) == byte_offset(s, i) + utf8_width(s[i]),
{
    assert(s.take(i + 1) =~= s.take(i) + seq![s[i]]);
    lemma_encode_utf8_concat(s.take(i), seq![s[i]]);
    assert(seq![s[i]].drop_first() =~= Seq::<char>::empty());
    assert(encode_utf8(Seq::<char>::empty()) =~= Seq::<u8>::empty());
    assert(encode_utf8(seq![s[i]]) =~= encode_scalar(s[i] as u32));
}

pub proof fn lemma_byte_offset_mono(s: Seq<char>, i: int, j: int)
    requires
        0 <= i <= j <= s.len(),
    ensures
        byte_offset(s, i) <= byte_offset(s, j),
{
    assert(s.take(j) =~= s.take(i) + s.subrange(i, j));
    lemma_encode_utf8_concat(s.take(i), s.subrange(i, j));
}

/// The number of bytes `c` takes in UTF-8, as `char::len_utf8` computes it.
pub fn char_len_utf8(c: char) -> (n: usize)
    ensures
        n == utf8_width(c),
        1 <= n <= 4,
{
    proof {
        char_is_scalar(c);
    }
    let v = c as u32;
    if v <= 0x7F {
        1
    } else if v <= 0x7FF {
        2
    } else if v <= 0xFFFF {
        3
    } else {
        4
    }
}

pub fn is_identifier_start(character: char) -> (b: bool)
    ensures
        b == is_identifier_start_char(character),
{
    ('a' <= character && character <= 'z') || ('A' <= character && character <= 'Z')
        || character == '_'
}

pub fn is_identifier_continue(character: char) -> (b: bool)
    ensures
        b == is_identifier_continue_char(character),
{
    is_identifier_start(character) || ('0' <= character && character <= '9')
}

impl Lexer {
    /// The characters being lexed.
    pub closed spec fn input(&self) -> Seq<char> {
        self.input@
    }

    /// The character index the lexer has reached.
    pub closed spec fn offset(&self) -> int {
        self.index as int
    }

    pub closed spec fn wf(&self) -> bool {
        &&& self.index <= self.input@.len() <= usize::MAX
        &&& self.pos == byte_offset(self.input@, self.index as int)
        &&& byte_offset(self.input@, self.input@.len() as int) <= usize::MAX
    }

    pub fn new(input: &str) -> (lexer: Self)
        ensures
            lexer.wf(),
            lexer.input() == input@,
            lexer.offset() == 0,
    {
        let chars = chars_of(input);
        let total = input.as_bytes().len();
        let count = chars.len();
        proof {
            assert(chars@.take(chars@.len() as int) =~= chars@);
            assert(chars@.take(0) =~= Seq::<char>::empty());
            assert(encode_utf8(Seq::<char>::empty()) =~= Seq::<u8>::empty());
        }
        Lexer { input: chars, index: 0, pos: 0 }
    }

    fn peek(&self) -> (c: Option<char>)
        requires
            self.wf(),
        ensures
            c == (if self.index < self.input@.len() {
                Some(self.input@[self.index as int])
            } else {
                None
            }),
    {
        if self.index < self.input.len() {
            Some(self.input[self.index])
        } else {
            None
        }
    }

    fn advance(&mut self) -> (c: Option<char>)
        requires
            old(self).wf(),
        ensures
            final(self).wf(),
            final(self).input@ == old(self).input@,
            c == (if old(self).index < old(self).input@.len() {
                Some(old(self).input@[old(self).index as int])
            } else {
                None
            }),
            final(self).index == (if old(self).index < old(self).input@.len() {
                old(self).index + 1
            } else {
                old(self).index as int
            }),
    {
        let next = self.peek();
        let character = match next {
            None => {
                return None;
            },
            Some(c) => c,
        };
        proof {
            lemma_byte_offset_step(self.input@, self.index as int);
            lemma_byte_offset_mono(self.input@, self.index + 1, self.input@.len() as int);
        }
        self.pos = self.pos + char_len_utf8(character);
        self.index = self.index + 1;
        Some(character)
    }

    fn lex_literal(&mut self, literal: String) -> (token: Token)
        requires
            old(self).wf(),
        ensures
            final(self).wf(),
            final(self).input@ == old(self).input@,
            final(self).index == literal_end(old(self).input@, old(self).index as int),
            token@ == TokenModel::Literal(
                literal@ + old(self).input@.subrange(old(self).index as int, final(self).index as int),
            ),
    {
        let ghost initial = literal@;
        let mut literal = literal;
        let ghost s = self.input@;
        let ghost start = self.index as int;
        proof {
            lemma_literal_end(s, start);
        }
        loop
            invariant
                self.wf(),
                self.input@ == s,
                0 <= start <= self.index <= literal_end(s, start),
                literal_end(s, self.index as int) == literal_end(s, start),
                literal@ == initial + s.subrange(start, self.index as int),
            ensures
                self.index == literal_end(s, start),
            decreases s.len() - self.index,
        {
            let next = self.peek();
            match next {
                None => {
                    assert(literal_end(s, self.index as int) == self.index);
                    break;
                },
                Some(character) => {
                    if character == '%' {
                        assert(literal_end(s, self.index as int) == self.index);
                        break;
                    }
                    push_char(&mut literal, character);
                    let ghost before = self.index as int;
                    assert(character == s[before]);
                    self.advance();
                    assert(self.index == before + 1);
                    proof {
                        lemma_literal_end(s, self.index as int);
                    }
                    assert(s.subrange(start, before + 1) =~= s.subrange(start, before).push(
                        character,
                    ));
                },
            }
        }
        Token::Literal(literal)
    }

    fn lex_identifier(&mut self, marker_position: usize) -> (r: Result<Token, LexError>)
        requires
            old(self).wf(),
        ensures
            final(self).wf(),
            final(self).input@ == old(self).input@,
            ({
                let s = old(self).input@;
                let i = old(self).index as int;
                if i >= s.len() {
                    r == Err::<Token, LexError>(LexError::EmptyIdentifier { position: marker_position })
                } else if !is_identifier_start_char(s[i]) {
                    r == Err::<Token, LexError>(
                        LexError::InvalidIdentifierStart { position: marker_position, found: s[i] },
                    )
                } else {
                    &&& r is Ok
                    &&& r->Ok_0@ == TokenModel::Identifier(s.subrange(i, identifier_end(s, i + 1)))
                    &&& final(self).index == identifier_end(s, i + 1)
                }
            }),
    {
        let ghost s = self.input@;
        let ghost start = self.index as int;
        let first = match self.peek() {
            None => {
                return Err(LexError::EmptyIdentifier { position: marker_position });
            },
            Some(c) => c,
        };
        if !is_identifier_start(first) {
            return Err(LexError::InvalidIdentifierStart { position: marker_position, found: first });
        }
        let mut identifier = String::new();
        push_char(&mut identifier, first);
        self.advance();
        proof {
            lemma_identifier_end(s, start + 1);
            assert(identifier@ =~= s.subrange(start, start + 1));
        }
        loop
            invariant
                self.wf(),
                self.input@ == s,
                0 <= start,
                start + 1 <= self.index <= identifier_end(s, start + 1),
                identifier_end(s, self.index as int) == identifier_end(s, start + 1),
                identifier@ == s.subrange(start, self.index as int),
            ensures
                self.index == identifier_end(s, start + 1),
            decreases s.len() - self.index,
        {
            let next = self.peek();
            match next {
                None => {
                    assert(identifier_end(s, self.index as int) == self.index);
                    break;
                },
                Some(character) => {
                    if !is_identifier_continue(character) {
                        assert(identifier_end(s, self.index as int) == self.index);
                        break;
                    }
                    push_char(&mut identifier, character);
                    let ghost before = self.index as int;
                    assert(character == s[before]);
                    self.advance();
                    assert(self.index == before + 1);
                    proof {
                        lemma_identifier_end(s, self.index as int);
                    }
                    assert(s.subrange(start, before + 1) =~= s.subrange(start, before).push(
                        character,
                    ));
                },
            }
        }
        Ok(Token::Identifier(identifier))
    }

    fn next_token(&mut self) -> (r: Result<Option<Token>, LexError>)
        requires
            old(self).wf(),
        ensures
            final(self).wf(),
            final(self).input@ == old(self).input@,
            (r == Ok::<Option<Token>, LexError>(None)) <==> old(self).index >= old(self).input@.len(),
            r matches Ok(Some(t)) ==> {
                &&& old(self).index < final(self).index
                &&& lex_from(old(self).input@, old(self).index as int) == prepend_token(
                    t@,
                    lex_from(final(self).input@, final(self).index as int),
                )
            },
            r matches Err(e) ==> lex_from(old(self).input@, old(self).index as int) == Err::<
                Seq<TokenModel>,
                LexError,
            >(e),
    {
        let ghost s = self.input@;
        let ghost i = self.index as int;
        let character = match self.peek() {
            None => {
                return Ok(None);
            },
            Some(c) => c,
        };
        if character != '%' {
            let token = self.lex_literal(String::new());
            proof {
                lemma_literal_end(s, i + 1);
                assert(Seq::<char>::empty() + s.subrange(i, self.index as int) =~= s.subrange(
                    i,
                    self.index as int,
                ));
            }
            return Ok(Some(token));
        }
        let marker_position = self.pos;
        self.advance();
        if self.peek() == Some('%') {
            self.advance();
            let mut percent = String::new();
            push_char(&mut percent, '%');
            let token = self.lex_literal(percent);
            proof {
                lemma_literal_end(s, i + 2);
                assert(percent@ =~= seq!['%']);
            }
            return Ok(Some(token));
        }
        let identifier = self.lex_identifier(marker_position);
        match identifier {
            Ok(token) => {
                proof {
                    lemma_identifier_end(s, i + 2);
                }
                Ok(Some(token))
            },
            Err(e) => Err(e),
        }
    }

    /// Lexes the rest of the input into tokens, stopping at the first error.
    pub fn tokenize(self) -> (r: Result<Vec<Token>, LexError>)
        requires
            self.wf(),
        ensures
            match lex_from(self.input(), self.offset()) {
                Ok(ts) => r is Ok && token_models(r->Ok_0@) == ts,
                Err(e) => r == Err::<Vec<Token>, LexError>(e),
            },
    {
        let mut lexer = self;
        let ghost s = lexer.input@;
        let ghost start = lexer.index as int;
        let mut tokens: Vec<Token> = Vec::new();
        proof {
            assert(token_models(tokens@) =~= Seq::<TokenModel>::empty());
            assert(prepend_tokens(Seq::empty(), lex_from(s, start)) =~= lex_from(s, start)) by {
                match lex_from(s, start) {
                    Ok(ts) => {
                        assert(Seq::<TokenModel>::empty() + ts =~= ts);
                    },
                    Err(_) => {},
                }
            }
        }
        loop
            invariant
                lexer.wf(),
                lexer.input@ == s,
                s == self.input(),
                start == self.offset(),
                lex_from(s, start) == prepend_tokens(
                    token_models(tokens@),
                    lex_from(s, lexer.index as int),
                ),
            decreases s.len() - lexer.index,
        {
            let ghost before = lexer.index as int;
            let next = lexer.next_token();
            match next {
                Ok(None) => {
                    proof {
                        assert(lex_from(s, before) == Ok::<Seq<TokenModel>, LexError>(seq![]));
                        assert(token_models(tokens@) + seq![] =~= token_models(tokens@));
                    }
                    return Ok(tokens);
                },
                Ok(Some(token)) => {
                    let ghost models = token_models(tokens@);
                    let ghost t = token@;
                    tokens.push(token);
                    proof {
                        assert(token_models(tokens@) =~= models.push(t));
                        match lex_from(s, lexer.index as int) {
                            Ok(rest) => {
                                assert(models + (seq![t] + rest) =~= models.push(t) + rest);
                            },
                            Err(_) => {},
                        }
                    }
                },
                Err(e) => {
                    return Err(e);
                },
            }
        }
    }
}

/// The text a token is written as: a field marker with its `%`, a literal
/// that starts with `%` with that `%` doubled, any other literal as it is.
pub open spec fn token_text(t: TokenModel) -> Seq<char> {
    match t {
        TokenModel::Identifier(name) => seq!['%'] + name,
        TokenModel::Literal(text) => if text.len() > 0 && text[0] == '%' {
            seq!['%'] + text
        } else {
            text
        },
    }
}

/// The text of a sequence of tokens written one after another.
pub open spec fn tokens_text(ts: Seq<TokenModel>) -> Seq<char>
    decreases ts.len(),
{
    if ts.len() == 0 {
        seq![]
    } else {
        token_text(ts[0]) + tokens_text(ts.drop_first())
    }
}

proof fn lemma_lex_from_text(s: Seq<char>, i: int)
    requires
        0 <= i <= s.len(),
        lex_from(s, i) is Ok,
    ensures
        tokens_text(lex_from(s, i)->Ok_0) == s.subrange(i, s.len() as int),
    decreases s.len() - i,
{
    if i == s.len() {
        assert(s.subrange(i, i) =~= Seq::<char>::empty());
    } else {
        let start = if s[i] != '%' {
            i + 1
        } else if s[i + 1] == '%' {
            i + 2
        } else {
            i + 2
        };
        let j = if s[i] != '%' || s[i + 1] == '%' {
            literal_end(s, start)
        } else {
            identifier_end(s, start)
        };
        lemma_literal_end(s, start);
        lemma_identifier_end(s, start);
        lemma_lex_from_text(s, j);
        let rest = lex_from(s, j)->Ok_0;
        let t = if s[i] != '%' {
            TokenModel::Literal(s.subrange(i, j))
        } else if s[i + 1] == '%' {
            TokenModel::Literal(seq!['%'] + s.subrange(i + 2, j))
        } else {
            TokenModel::Identifier(s.subrange(i + 1, j))
        };
        assert(lex_from(s, i)->Ok_0 == seq![t] + rest);
        assert((seq![t] + rest).drop_first() =~= rest);
        assert(token_text(t) =~= s.subrange(i, j));
        assert(s.subrange(i, j) + s.subrange(j, s.len() as int) =~= s.subrange(i, s.len() as int));
    }
}

/// Lexing loses nothing: the tokens of a text, written back one after
/// another, give the text.
pub proof fn lemma_lex_round_trip(s: Seq<char>)
    requires
        lex(s) is Ok,
    ensures
        tokens_text(lex(s)->Ok_0) == s,
{
    lemma_lex_from_text(s, 0);
    assert(s.subrange(0, s.len() as int) =~= s);
}

/// The shape every token the lexer makes has: a literal is not empty and
/// has a `%` at most in front; a field name is an identifier start followed
/// by identifier characters.
pub open spec fn token_well_formed(t: TokenModel) -> bool {
    match t {
        TokenModel::Literal(text) => text.len() > 0 && forall|k: int|
            1 <= k < text.len() ==> #[trigger] text[k] != '%',
        TokenModel::Identifier(name) => name.len() > 0 && is_identifier_start_char(name[0])
            && forall|k: int| 0 <= k < name.len() ==> is_identifier_continue_char(#[trigger] name[k]),
    }
}

/// The first character of the text a token stands for.
pub open spec fn token_first_char(t: TokenModel) -> char {
    match t {
        TokenModel::Literal(text) => text[0],
        TokenModel::Identifier(_) => '%',
    }
}

/// Whether the lexer's tokens are well formed and a field name is never
/// followed by a literal that could have continued it.
pub open spec fn tokens_well_formed(ts: Seq<TokenModel>) -> bool {
    &&& forall|k: int| 0 <= k < ts.len() ==> token_well_formed(#[trigger] ts[k])
    &&& forall|k: int|
        0 <= k < ts.len() - 1 && (#[trigger] ts[k]) is Identifier ==> !is_identifier_continue_char(
            token_first_char(ts[k + 1]),
        )
}

proof fn lemma_lex_from_well_formed(s: Seq<char>, i: int)
    requires
        0 <= i <= s.len(),
        lex_from(s, i) is Ok,
    ensures
        tokens_well_formed(lex_from(s, i)->Ok_0),
        lex_from(s, i)->Ok_0.len() > 0 ==> token_first_char(lex_from(s, i)->Ok_0[0]) == s[i],
    decreases s.len() - i,
{
    if i < s.len() {
        let start = if s[i] != '%' {
            i + 1
        } else {
            i + 2
        };
        let j = if s[i] != '%' || s[i + 1] == '%' {
            literal_end(s, start)
        } else {
            identifier_end(s, start)
        };
        lemma_literal_end(s, start);
        lemma_identifier_end(s, start);
        lemma_lex_from_well_formed(s, j);
        let rest = lex_from(s, j)->Ok_0;
        let t = if s[i] != '%' {
            TokenModel::Literal(s.subrange(i, j))
        } else if s[i + 1] == '%' {
            TokenModel::Literal(seq!['%'] + s.subrange(i + 2, j))
        } else {
            TokenModel::Identifier(s.subrange(i + 1, j))
        };
        let ts = seq![t] + rest;
        assert(lex_from(s, i)->Ok_0 == ts);
        assert(token_well_formed(t));
        assert forall|k: int| 0 <= k < ts.len() implies token_well_formed(#[trigger] ts[k]) by {
            if k > 0 {
                assert(ts[k] == rest[k - 1]);
            }
        }
        assert forall|k: int|
            0 <= k < ts.len() - 1 && (#[trigger] ts[k]) is Identifier implies !is_identifier_continue_char(
            token_first_char(ts[k + 1]),
        ) by {
            if k > 0 {
                assert(ts[k] == rest[k - 1]);
                assert(ts[k + 1] == rest[k]);
            } else {
                assert(ts[1] == rest[0]);
                assert(j < s.len());
            }
        }
    }
}

/// The lexer's tokens are well formed: literals are not empty and hold a
/// `%` at most in front, field names are identifiers, and the literal after
/// a field name does not start with an identifier character.
pub proof fn lemma_lex_well_formed(s: Seq<char>)
    requires
        lex(s) is Ok,
    ensures
        tokens_well_formed(lex(s)->Ok_0),
{
    lemma_lex_from_well_formed(s, 0);
}

} // verus!
