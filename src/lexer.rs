use vstd::prelude::*;

verus! {

/// A lexical unit of the term language.
#[derive(Debug, Clone, PartialEq, Eq)]
pub enum Token {
    Lambda,
    Dot,
    Colon,
    Arrow,
    LParen,
    RParen,
    Var(String),
    Type(String),
}

/// The mathematical value of a token: identifiers carried as character sequences.
pub enum TokenModel {
    Lambda,
    Dot,
    Colon,
    Arrow,
    LParen,
    RParen,
    Var(Seq<char>),
    Type(Seq<char>),
}

impl View for Token {
    type V = TokenModel;

    open spec fn view(&self) -> TokenModel {
        match self {
            Token::Lambda => TokenModel::Lambda,
            Token::Dot => TokenModel::Dot,
            Token::Colon => TokenModel::Colon,
            Token::Arrow => TokenModel::Arrow,
            Token::LParen => TokenModel::LParen,
            Token::RParen => TokenModel::RParen,
            Token::Var(s) => TokenModel::Var(s@),
            Token::Type(s) => TokenModel::Type(s@),
        }
    }
}

/// Why a piece of text could not be split into tokens.
#[derive(Debug, Clone, PartialEq, Eq)]
pub enum LexError {
    /// A `-` that is not followed by `>`.
    ExpectedArrowHead,
    /// A character that starts no token.
    UnrecognizedChar(char),
}

/// The White_Space property of a character beyond ASCII.
pub uninterp spec fn white_space(c: char) -> bool;

/// The Alphabetic property of a character beyond ASCII.
pub uninterp spec fn alphabetic(c: char) -> bool;

/// Alphabetic or numeric, for a character beyond ASCII.
pub uninterp spec fn alphanumeric(c: char) -> bool;

/// The Uppercase property of a character beyond ASCII.
pub uninterp spec fn uppercase(c: char) -> bool;

pub open spec fn is_ascii_char(c: char) -> bool {
    (c as u32) < 128
}

pub open spec fn ascii_upper(c: char) -> bool {
    65 <= (c as u32) <= 90
}

pub open spec fn ascii_letter(c: char) -> bool {
    ascii_upper(c) || 97 <= (c as u32) <= 122
}

pub open spec fn ascii_digit(c: char) -> bool {
    48 <= (c as u32) <= 57
}

/// Tab, line feed, vertical tab, form feed, carriage return, space.
pub open spec fn ascii_space(c: char) -> bool {
    9 <= (c as u32) <= 13 || c == ' '
}

/// Whitespace: the ASCII spaces, and the White_Space property beyond ASCII.
pub open spec fn is_space(c: char) -> bool {
    if is_ascii_char(c) {
        ascii_space(c)
    } else {
        white_space(c)
    }
}

/// Letters: the ASCII letters, and the Alphabetic property beyond ASCII.
pub open spec fn is_letter(c: char) -> bool {
    if is_ascii_char(c) {
        ascii_letter(c)
    } else {
        alphabetic(c)
    }
}

/// Letters and digits: the ASCII letters and digits, and beyond ASCII what is alphabetic
/// or numeric.
pub open spec fn is_letter_or_digit(c: char) -> bool {
    if is_ascii_char(c) {
        ascii_letter(c) || ascii_digit(c)
    } else {
        alphanumeric(c)
    }
}

/// Uppercase: `A` to `Z`, and the Uppercase property beyond ASCII.
pub open spec fn is_upper(c: char) -> bool {
    if is_ascii_char(c) {
        ascii_upper(c)
    } else {
        uppercase(c)
    }
}

/// Relies on char::is_whitespace: the White_Space property; on ASCII exactly the space
/// and U+0009 to U+000D.
#[verifier::external_body]
fn is_white_space(c: char) -> (r: bool)
    ensures
        is_ascii_char(c) ==> r == ascii_space(c),
        !is_ascii_char(c) ==> r == white_space(c),
{
    c.is_whitespace()
}

/// Relies on char::is_alphabetic: the Alphabetic property; on ASCII exactly the letters.
#[verifier::external_body]
fn is_alphabetic(c: char) -> (r: bool)
    ensures
        is_ascii_char(c) ==> r == ascii_letter(c),
        !is_ascii_char(c) ==> r == alphabetic(c),
{
    c.is_alphabetic()
}

/// Relies on char::is_alphanumeric: alphabetic or numeric (general category Nd, Nl or
/// No); on ASCII exactly the letters and digits.
#[verifier::external_body]
fn is_alphanumeric(c: char) -> (r: bool)
    ensures
        is_ascii_char(c) ==> r == (ascii_letter(c) || ascii_digit(c)),
        !is_ascii_char(c) ==> r == alphanumeric(c),
{
    c.is_alphanumeric()
}

/// Relies on char::is_uppercase: the Uppercase property; on ASCII exactly `A` to `Z`.
#[verifier::external_body]
fn is_uppercase(c: char) -> (r: bool)
    ensures
        is_ascii_char(c) ==> r == ascii_upper(c),
        !is_ascii_char(c) ==> r == uppercase(c),
{
    c.is_uppercase()
}

/// The characters of a string, in order.
pub(crate) fn chars_of(s: &str) -> (r: Vec<char>)
    ensures
        r@ == s@,
{
    let mut v: Vec<char> = Vec::new();
    for c in it: s.chars()
        invariant
            it.seq() == s@,
            v@ == s@.take(it.index() as int),
    {
        v.push(c);
        assert(v@ =~= s@.take(it.index() as int + 1));
    }
    assert(v@ =~= s@);
    v
}

/// Relies on `String: FromIterator<&char>` (`collect`): the string holds exactly these
/// characters, in order.
#[verifier::external_body]
pub(crate) fn string_of(v: &[char]) -> (r: String)
    ensures
        r@ == v@,
{
    v.iter().collect()
}

/// The end of the maximal run of alphanumeric characters that starts at `i`.
pub open spec fn ident_end(s: Seq<char>, i: int) -> int
    decreases s.len() - i,
{
    if i < 0 || i >= s.len() || !is_letter_or_digit(s[i]) {
        i
    } else {
        ident_end(s, i + 1)
    }
}

/// An identifier is a type name when it is `Bool`, `Nat`, or starts with an uppercase letter.
pub open spec fn classify(id: Seq<char>) -> TokenModel {
    if id == seq!['B', 'o', 'o', 'l'] || id == seq!['N', 'a', 't'] || (id.len() > 0
        && is_upper(id[0])) {
        TokenModel::Type(id)
    } else {
        TokenModel::Var(id)
    }
}

/// Puts `t` in front of the tokens of a successful lexing; an error stays as it is.
pub open spec fn cons(t: TokenModel, r: Result<Seq<TokenModel>, LexError>) -> Result<
    Seq<TokenModel>,
    LexError,
> {
    match r {
        Ok(ts) => Ok(seq![t] + ts),
        Err(e) => Err(e),
    }
}

/// The tokens of `s` from position `i` on.
pub open spec fn lex_from(s: Seq<char>, i: int) -> Result<Seq<TokenModel>, LexError>
    decreases s.len() - i,
{
    if i < 0 || i >= s.len() {
        Ok(Seq::empty())
    } else {
        let c = s[i];
        if c == 'λ' || c == '\\' {
            cons(TokenModel::Lambda, lex_from(s, i + 1))
        } else if c == '.' {
            cons(TokenModel::Dot, lex_from(s, i + 1))
        } else if c == ':' {
            cons(TokenModel::Colon, lex_from(s, i + 1))
        } else if c == '-' {
            if i + 1 < s.len() && s[i + 1] == '>' {
                cons(TokenModel::Arrow, lex_from(s, i + 2))
            } else {
                Err(LexError::ExpectedArrowHead)
            }
        } else if c == '(' {
            cons(TokenModel::LParen, lex_from(s, i + 1))
        } else if c == ')' {
            cons(TokenModel::RParen, lex_from(s, i + 1))
        } else if is_letter(c) {
            let j = ident_end(s, i + 1);
            // the run always ends past `i`; the bound only makes that visible to termination
            let k = if i < j && j <= s.len() { j } else { i + 1 };
            cons(classify(s.subrange(i, k)), lex_from(s, k))
        } else if is_space(c) {
            lex_from(s, i + 1)
        } else {
            Err(LexError::UnrecognizedChar(c))
        }
    }
}

/// The tokens of a whole text.
pub open spec fn lex(s: Seq<char>) -> Result<Seq<TokenModel>, LexError> {
    lex_from(s, 0)
}

/// The views of a sequence of tokens.
pub open spec fn tokens_view(ts: Seq<Token>) -> Seq<TokenModel> {
    ts.map_values(|t: Token| t@)
}

proof fn lemma_ident_end(s: Seq<char>, i: int)
    requires
        0 <= i <= s.len(),
    ensures
        i <= ident_end(s, i) <= s.len(),
    decreases s.len() - i,
{
    if i < s.len() && is_letter_or_digit(s[i]) {
        lemma_ident_end(s, i + 1);
    }
}

fn push_token(tokens: &mut Vec<Token>, t: Token)
    ensures
        tokens_view(final(tokens)@) == tokens_view(old(tokens)@) + seq![t@],
{
    tokens.push(t);
    assert(tokens_view(tokens@) =~= tokens_view(old(tokens)@) + seq![t@]);
}

fn is_keyword_type(id: &Vec<char>) -> (r: bool)
    ensures
        r == (id@ == seq!['B', 'o', 'o', 'l'] || id@ == seq!['N', 'a', 't']),
{
    if id.len() == 4 && id[0] == 'B' && id[1] == 'o' && id[2] == 'o' && id[3] == 'l' {
        assert(id@ =~= seq!['B', 'o', 'o', 'l']);
        true
    } else if id.len() == 3 && id[0] == 'N' && id[1] == 'a' && id[2] == 't' {
        assert(id@ =~= seq!['N', 'a', 't']);
        true
    } else {
        false
    }
}

/// Splits `input` into tokens, skipping whitespace.
pub fn lexer(input: String) -> (r: Result<Vec<Token>, LexError>)
    ensures
        match r {
            Ok(ts) => lex(input@) == Ok::<Seq<TokenModel>, LexError>(tokens_view(ts@)),
            Err(e) => lex(input@) == Err::<Seq<TokenModel>, LexError>(e),
        },
{
    let s = chars_of(input.as_str());
    let mut tokens: Vec<Token> = Vec::new();
    let mut i: usize = 0;
    assert(tokens_view(tokens@) =~= Seq::empty());
    while i < s.len()
        invariant
            i <= s.len(),
            s@ == input@,
            lex(s@) == cons_all(tokens_view(tokens@), lex_from(s@, i as int)),
        decreases s.len() - i,
    {
        let c = s[i];
        let ghost before = tokens_view(tokens@);
        if c == 'λ' || c == '\\' {
            push_token(&mut tokens, Token::Lambda);
            i = i + 1;
        } else if c == '.' {
            push_token(&mut tokens, Token::Dot);
            i = i + 1;
        } else if c == ':' {
            push_token(&mut tokens, Token::Colon);
            i = i + 1;
        } else if c == '-' {
            if i + 1 < s.len() && s[i + 1] == '>' {
                push_token(&mut tokens, Token::Arrow);
                i = i + 2;
            } else {
                return Err(LexError::ExpectedArrowHead);
            }
        } else if c == '(' {
            push_token(&mut tokens, Token::LParen);
            i = i + 1;
        } else if c == ')' {
            push_token(&mut tokens, Token::RParen);
            i = i + 1;
        } else if is_alphabetic(c) {
            let start = i;
            let mut ident: Vec<char> = Vec::new();
            ident.push(c);
            i = i + 1;
            proof {
                lemma_ident_end(s@, i as int);
            }
            while i < s.len() && is_alphanumeric(s[i])
                invariant
                    start < i <= s.len(),
                    ident_end(s@, start + 1) == ident_end(s@, i as int),
                    ident@ == s@.subrange(start as int, i as int),
                decreases s.len() - i,
            {
                ident.push(s[i]);
                i = i + 1;
                assert(ident@ =~= s@.subrange(start as int, i as int));
            }
            let keyword = is_keyword_type(&ident);
            let upper = is_uppercase(ident[0]);
            let name = string_of(ident.as_slice());
            if keyword || upper {
                push_token(&mut tokens, Token::Type(name));
            } else {
                push_token(&mut tokens, Token::Var(name));
            }
        } else if is_white_space(c) {
            i = i + 1;
        } else {
            return Err(LexError::UnrecognizedChar(c));
        }
        proof {
            let after = tokens_view(tokens@);
            if after.len() == before.len() + 1 {
                lemma_cons_all_push(before, after.last(), lex_from(s@, i as int));
            }
        }
    }
    Ok(tokens)
}

/// Puts `prefix` in front of the tokens of a successful lexing; an error stays as it is.
pub open spec fn cons_all(prefix: Seq<TokenModel>, r: Result<Seq<TokenModel>, LexError>) -> Result<
    Seq<TokenModel>,
    LexError,
> {
    match r {
        Ok(ts) => Ok(prefix + ts),
        Err(e) => Err(e),
    }
}

proof fn lemma_cons_all_push(
    before: Seq<TokenModel>,
    t: TokenModel,
    r: Result<Seq<TokenModel>, LexError>,
)
    ensures
        cons_all(before + seq![t], r) == cons_all(before, cons(t, r)),
{
    if let Ok(ts) = r {
        assert((before + seq![t]) + ts =~= before + (seq![t] + ts));
    }
}

} // verus!
