//! The lexical scanner: source text to an ordered sequence of tokens.
//!
//! Tokenization is given as a mathematical function, [`lex_spec`], and the
//! scanner is proved to return exactly what it says. Scanning stops quietly
//! at the first character no rule covers, as the grammar has nothing after
//! it; only a malformed numeric literal is a failure.

use vstd::prelude::*;

use crate::lsymc::{chars_string, str_chars};

verus! {

/// One token of the source language. A numeric literal with a decimal
/// point is kept as its exact text (see [`crate::lsymc::Lsymc`] on why
/// floating-point values stay textual); one without is a machine integer.
#[derive(Debug, PartialEq)]
pub enum Token {
    Def,
    Defn,
    Plus,
    Minus,
    Astrisk,
    Slash,
    LT,
    GT,
    Equal,
    NotEqual,
    String(String),
    Ident(String),
    Int(i64),
    Float(String),
    LParen,
    RParen,
}

/// The model of one token.
pub enum TokenV {
    Def,
    Defn,
    Plus,
    Minus,
    Astrisk,
    Slash,
    LT,
    GT,
    Equal,
    NotEqual,
    String(Seq<char>),
    Ident(Seq<char>),
    Int(i64),
    Float(Seq<char>),
    LParen,
    RParen,
}

impl View for Token {
    type V = TokenV;

    open spec fn view(&self) -> TokenV {
        match self {
            Token::Def => TokenV::Def,
            Token::Defn => TokenV::Defn,
            Token::Plus => TokenV::Plus,
            Token::Minus => TokenV::Minus,
            Token::Astrisk => TokenV::Astrisk,
            Token::Slash => TokenV::Slash,
            Token::LT => TokenV::LT,
            Token::GT => TokenV::GT,
            Token::Equal => TokenV::Equal,
            Token::NotEqual => TokenV::NotEqual,
            Token::String(s) => TokenV::String(s@),
            Token::Ident(s) => TokenV::Ident(s@),
            Token::Int(i) => TokenV::Int(*i),
            Token::Float(t) => TokenV::Float(t@),
            Token::LParen => TokenV::LParen,
            Token::RParen => TokenV::RParen,
        }
    }
}

/// The models of a sequence of tokens.
pub open spec fn tokens_model(s: Seq<Token>) -> Seq<TokenV> {
    s.map_values(|t: Token| t@)
}

/// Appending one token appends its model.
pub proof fn lemma_tokens_model_push(s: Seq<Token>, t: Token)
    ensures
        tokens_model(s.push(t)) == tokens_model(s).push(t@),
{
    assert forall|i: int| 0 <= i < s.push(t).len() implies tokens_model(s.push(t))[i]
        == tokens_model(s).push(t@)[i] by {
        if i < s.len() {
            assert(s.push(t)[i] == s[i]);
        } else {
            assert(s.push(t)[i] == t);
        }
    }
    assert(tokens_model(s.push(t)) =~= tokens_model(s).push(t@));
}

/// A failure of the scanner: the one fatal case, a numeric literal that is
/// not a well-formed number.
#[derive(Debug, PartialEq, Eq, Structural)]
pub enum LexError {
    MalformedNumber,
}

/// What `char::is_alphabetic` holds of a character; a property of the
/// character alone.
pub uninterp spec fn alphabetic(c: char) -> bool;

/// What `char::is_numeric` holds of a character; a property of the
/// character alone.
pub uninterp spec fn numeric(c: char) -> bool;

/// What `char::is_whitespace` holds of a character; a property of the
/// character alone.
pub uninterp spec fn whitespace(c: char) -> bool;

/// Relies on char::is_alphabetic: a fixed classification of the character.
#[verifier::external_body]
fn char_is_alphabetic(c: char) -> (r: bool)
    ensures
        r == alphabetic(c),
{
    c.is_alphabetic()
}

/// Relies on char::is_numeric: a fixed classification of the character.
#[verifier::external_body]
fn char_is_numeric(c: char) -> (r: bool)
    ensures
        r == numeric(c),
{
    c.is_numeric()
}

/// Relies on char::is_whitespace: a fixed classification of the character.
#[verifier::external_body]
fn char_is_whitespace(c: char) -> (r: bool)
    ensures
        r == whitespace(c),
{
    c.is_whitespace()
}

/// The first position at or after `i` whose character is not whitespace,
/// or the end of the text.
pub open spec fn skip_ws_spec(s: Seq<char>, i: int) -> int
    decreases s.len() - i,
{
    if 0 <= i < s.len() && whitespace(s[i]) {
        skip_ws_spec(s, i + 1)
    } else {
        i
    }
}

pub proof fn lemma_skip_ws(s: Seq<char>, i: int)
    requires
        0 <= i <= s.len(),
    ensures
        i <= skip_ws_spec(s, i) <= s.len(),
        skip_ws_spec(s, i) < s.len() ==> !whitespace(s[skip_ws_spec(s, i)]),
    decreases s.len() - i,
{
    if i < s.len() && whitespace(s[i]) {
        lemma_skip_ws(s, i + 1);
    }
}

/// The first position at or after `i` whose character fails `p`, or the
/// end of the text.
pub open spec fn scan_while(s: Seq<char>, i: int, p: spec_fn(char) -> bool) -> int
    decreases s.len() - i,
{
    if 0 <= i < s.len() && p(s[i]) {
        scan_while(s, i + 1, p)
    } else {
        i
    }
}

pub proof fn lemma_scan_while(s: Seq<char>, i: int, p: spec_fn(char) -> bool)
    requires
        0 <= i <= s.len(),
    ensures
        i <= scan_while(s, i, p) <= s.len(),
        scan_while(s, i, p) < s.len() ==> !p(s[scan_while(s, i, p)]),
    decreases s.len() - i,
{
    if i < s.len() && p(s[i]) {
        lemma_scan_while(s, i + 1, p);
    }
}

/// Where a string literal's content, opened just before `i`, ends: at the
/// closing quote or at the end of the text.
pub open spec fn string_end(s: Seq<char>, i: int) -> int {
    scan_while(s, i, |ch: char| ch != '"')
}

/// Where an identifier starting at `i` ends: identifiers run to the next
/// whitespace or parenthesis.
pub open spec fn ident_end(s: Seq<char>, i: int) -> int {
    scan_while(s, i, |ch: char| !whitespace(ch) && ch != '(' && ch != ')')
}

/// Where a numeric literal starting at `i` ends: a run of numeric
/// characters and decimal points.
pub open spec fn num_end(s: Seq<char>, i: int) -> int {
    scan_while(s, i, |ch: char| numeric(ch) || ch == '.')
}

/// A decimal digit.
pub open spec fn ascii_digit(c: char) -> bool {
    '0' <= c && c <= '9'
}

/// The count of decimal points in a numeric literal's text.
pub open spec fn dot_count(t: Seq<char>) -> int
    decreases t.len(),
{
    if t.len() == 0 {
        0
    } else {
        dot_count(t.drop_last()) + if t.last() == '.' {
            1int
        } else {
            0int
        }
    }
}

/// A well-formed floating-point literal: exactly one decimal point, every
/// other character a decimal digit.
pub open spec fn float_wf(t: Seq<char>) -> bool {
    &&& dot_count(t) == 1
    &&& forall|k: int| 0 <= k < t.len() ==> ascii_digit(#[trigger] t[k]) || t[k] == '.'
}

/// The value of a run of decimal digits.
pub open spec fn dec_val(t: Seq<char>) -> int
    decreases t.len(),
{
    if t.len() == 0 {
        0
    } else {
        dec_val(t.drop_last()) * 10 + (t.last() as int - '0' as int)
    }
}

/// A well-formed integer literal: decimal digits only, small enough for a
/// machine integer.
pub open spec fn int_wf(t: Seq<char>) -> bool {
    &&& forall|k: int| 0 <= k < t.len() ==> ascii_digit(#[trigger] t[k])
    &&& dec_val(t) <= i64::MAX
}

/// Prepends a token to a tokenization's result, keeping its failure.
pub open spec fn cons_tok(t: TokenV, rest: Result<Seq<TokenV>, LexError>) -> Result<
    Seq<TokenV>,
    LexError,
> {
    match rest {
        Ok(ts) => Ok(seq![t] + ts),
        Err(e) => Err(e),
    }
}

/// The mapping an identifier's text gets: the two reserved keywords become
/// their tags, anything else is an ordinary identifier.
pub open spec fn ident_token(text: Seq<char>) -> TokenV {
    if text == "def"@ {
        TokenV::Def
    } else if text == "defn"@ {
        TokenV::Defn
    } else {
        TokenV::Ident(text)
    }
}

/// The tokens of the text from position `i` on: whitespace is skipped;
/// punctuation and operator characters are single tokens; `"` opens a
/// string literal (its content runs to the next quote or the end of the
/// text, with no escapes); an alphabetic character opens an identifier; a
/// numeric character opens a numeric literal, floating-point exactly when
/// it holds a decimal point, and malformed numeric text is the one fatal
/// failure. A character none of these rules covers ends the scan.
pub open spec fn lex_spec(s: Seq<char>, i: int) -> Result<Seq<TokenV>, LexError>
    decreases s.len() - i,
    when 0 <= i <= s.len()
    via lex_spec_dec
{
    let j = skip_ws_spec(s, i);
    if j >= s.len() {
        Ok(Seq::empty())
    } else {
        let c = s[j];
        if c == '(' {
            cons_tok(TokenV::LParen, lex_spec(s, j + 1))
        } else if c == ')' {
            cons_tok(TokenV::RParen, lex_spec(s, j + 1))
        } else if c == '+' {
            cons_tok(TokenV::Plus, lex_spec(s, j + 1))
        } else if c == '-' {
            cons_tok(TokenV::Minus, lex_spec(s, j + 1))
        } else if c == '/' {
            cons_tok(TokenV::Slash, lex_spec(s, j + 1))
        } else if c == '*' {
            cons_tok(TokenV::Astrisk, lex_spec(s, j + 1))
        } else if c == '<' {
            cons_tok(TokenV::LT, lex_spec(s, j + 1))
        } else if c == '>' {
            cons_tok(TokenV::GT, lex_spec(s, j + 1))
        } else if c == '=' {
            cons_tok(TokenV::Equal, lex_spec(s, j + 1))
        } else if c == '!' {
            cons_tok(TokenV::NotEqual, lex_spec(s, j + 1))
        } else if c == '"' {
            let e = string_end(s, j + 1);
            let next = if e < s.len() {
                e + 1
            } else {
                e
            };
            cons_tok(TokenV::String(s.subrange(j + 1, e)), lex_spec(s, next))
        } else if alphabetic(c) {
            let e = ident_end(s, j);
            cons_tok(ident_token(s.subrange(j, e)), lex_spec(s, e))
        } else if numeric(c) {
            let e = num_end(s, j);
            let text = s.subrange(j, e);
            if dot_count(text) > 0 {
                if float_wf(text) {
                    cons_tok(TokenV::Float(text), lex_spec(s, e))
                } else {
                    Err(LexError::MalformedNumber)
                }
            } else {
                if int_wf(text) {
                    cons_tok(TokenV::Int(dec_val(text) as i64), lex_spec(s, e))
                } else {
                    Err(LexError::MalformedNumber)
                }
            }
        } else {
            Ok(Seq::empty())
        }
    }
}

#[via_fn]
proof fn lex_spec_dec(s: Seq<char>, i: int) {
    lemma_skip_ws(s, i);
    let j = skip_ws_spec(s, i);
    if j < s.len() {
        let c = s[j];
        lemma_scan_while(s, j + 1, |ch: char| ch != '"');
        lemma_scan_while(s, j, |ch: char| !whitespace(ch) && ch != '(' && ch != ')');
        lemma_scan_while(s, j, |ch: char| numeric(ch) || ch == '.');
        if alphabetic(c) && !(c == '(' || c == ')' || c == '+' || c == '-' || c == '/' || c == '*'
            || c == '<' || c == '>' || c == '=' || c == '!' || c == '"') {
            assert(!whitespace(c));
            assert(ident_end(s, j) >= j + 1);
        }
        if numeric(c) {
            assert(num_end(s, j) >= j + 1);
        }
    }
}

/// The character the scanner stands on, if any.
pub open spec fn curr_of(s: Seq<char>, i: int) -> Option<char> {
    if 0 <= i < s.len() {
        Some(s[i])
    } else {
        None
    }
}

/// The lexical scanner: the decoded characters of the source text and the
/// position it stands on.
pub struct Lexer {
    chars: Vec<char>,
    pos: usize,
}

impl Lexer {
    /// The whole source text.
    pub closed spec fn text(&self) -> Seq<char> {
        self.chars@
    }

    /// The position the scanner stands on.
    pub closed spec fn at(&self) -> int {
        self.pos as int
    }

    /// The scanner never stands past the end of the text.
    pub open spec fn wf(&self) -> bool {
        0 <= self.at() <= self.text().len()
    }

    /// A scanner over `input`, standing on its first character.
    pub fn new(input: &str) -> (r: Lexer)
        ensures
            r.text() == input@,
            r.at() == 0,
            r.wf(),
    {
        Lexer { chars: str_chars(input), pos: 0 }
    }

    /// Steps past the current character and returns the one now stood on.
    pub fn next(&mut self) -> (r: Option<char>)
        requires
            old(self).wf(),
        ensures
            final(self).text() == old(self).text(),
            final(self).at() == if old(self).at() < old(self).text().len() {
                old(self).at() + 1
            } else {
                old(self).at()
            },
            final(self).wf(),
            r == curr_of(final(self).text(), final(self).at()),
    {
        if self.pos < self.chars.len() {
            self.pos = self.pos + 1;
        }
        if self.pos < self.chars.len() {
            Some(self.chars[self.pos])
        } else {
            None
        }
    }

    /// Steps once and hands the token through: the single-character tokens
    /// are emitted this way.
    fn return_token_advance(&mut self, t: Token) -> (r: Token)
        requires
            old(self).wf(),
        ensures
            final(self).text() == old(self).text(),
            final(self).at() == if old(self).at() < old(self).text().len() {
                old(self).at() + 1
            } else {
                old(self).at()
            },
            final(self).wf(),
            r == t,
    {
        let _ = self.next();
        t
    }

    /// Steps past whitespace, to where [`skip_ws_spec`] says.
    pub fn skip_whitespace(&mut self)
        requires
            old(self).wf(),
        ensures
            final(self).text() == old(self).text(),
            final(self).at() == skip_ws_spec(old(self).text(), old(self).at()),
            final(self).wf(),
    {
        #[verifier::loop_isolation(false)]
        loop
            invariant
                self.wf(),
                self.text() == old(self).text(),
                skip_ws_spec(self.text(), self.at()) == skip_ws_spec(
                    old(self).text(),
                    old(self).at(),
                ),
            decreases self.text().len() - self.at(),
        {
            if self.pos >= self.chars.len() {
                return ;
            }
            let c = self.chars[self.pos];
            if !char_is_whitespace(c) {
                return ;
            }
            let _ = self.next();
        }
    }

    /// Reads a string literal's content: the scanner stands on the opening
    /// quote; the content runs to the closing quote (stepped past) or to
    /// the end of the text.
    pub fn read_string(&mut self) -> (r: String)
        requires
            old(self).wf(),
            curr_of(old(self).text(), old(self).at()) == Some('"'),
        ensures
            final(self).text() == old(self).text(),
            r@ == old(self).text().subrange(
                old(self).at() + 1,
                string_end(old(self).text(), old(self).at() + 1),
            ),
            final(self).at() == ({
                let e = string_end(old(self).text(), old(self).at() + 1);
                if e < old(self).text().len() {
                    e + 1
                } else {
                    e
                }
            }),
            final(self).wf(),
    {
        let ghost s = self.text();
        let ghost start = self.at() + 1;
        proof {
            lemma_scan_while(s, start, |ch: char| ch != '"');
        }
        let mut base: Vec<char> = Vec::new();
        let _ = self.next();
        #[verifier::loop_isolation(false)]
        loop
            invariant
                self.wf(),
                self.text() == s,
                start <= self.at() <= s.len(),
                base@ == s.subrange(start, self.at()),
                string_end(s, self.at()) == string_end(s, start),
            decreases s.len() - self.at(),
        {
            if self.pos >= self.chars.len() {
                proof {
                    assert(base@ =~= s.subrange(start, string_end(s, start)));
                }
                return chars_string(&base);
            }
            let c = self.chars[self.pos];
            if c == '"' {
                let _ = self.next();
                proof {
                    assert(base@ =~= s.subrange(start, string_end(s, start)));
                }
                return chars_string(&base);
            }
            base.push(c);
            let _ = self.next();
            proof {
                assert(base@ =~= s.subrange(start, self.at()));
            }
        }
    }

    /// Reads a numeric literal's text: a run of numeric characters and
    /// decimal points, starting where the scanner stands.
    pub fn read_numeric(&mut self) -> (r: String)
        requires
            old(self).wf(),
        ensures
            final(self).text() == old(self).text(),
            r@ == old(self).text().subrange(
                old(self).at(),
                num_end(old(self).text(), old(self).at()),
            ),
            final(self).at() == num_end(old(self).text(), old(self).at()),
            final(self).wf(),
    {
        let ghost s = self.text();
        let ghost start = self.at();
        proof {
            lemma_scan_while(s, start, |ch: char| numeric(ch) || ch == '.');
        }
        let mut num: Vec<char> = Vec::new();
        #[verifier::loop_isolation(false)]
        loop
            invariant
                self.wf(),
                self.text() == s,
                start <= self.at() <= s.len(),
                num@ == s.subrange(start, self.at()),
                num_end(s, self.at()) == num_end(s, start),
            decreases s.len() - self.at(),
        {
            if self.pos >= self.chars.len() {
                proof {
                    assert(num@ =~= s.subrange(start, num_end(s, start)));
                }
                return chars_string(&num);
            }
            let c = self.chars[self.pos];
            if !char_is_numeric(c) && c != '.' {
                proof {
                    assert(num@ =~= s.subrange(start, num_end(s, start)));
                }
                return chars_string(&num);
            }
            num.push(c);
            let _ = self.next();
            proof {
                assert(num@ =~= s.subrange(start, self.at()));
            }
        }
    }

    /// Reads an identifier's text: it runs to the next whitespace or
    /// parenthesis, starting where the scanner stands.
    pub fn read_ident(&mut self) -> (r: String)
        requires
            old(self).wf(),
        ensures
            final(self).text() == old(self).text(),
            r@ == old(self).text().subrange(
                old(self).at(),
                ident_end(old(self).text(), old(self).at()),
            ),
            final(self).at() == ident_end(old(self).text(), old(self).at()),
            final(self).wf(),
    {
        let ghost s = self.text();
        let ghost start = self.at();
        proof {
            lemma_scan_while(s, start, |ch: char| !whitespace(ch) && ch != '(' && ch != ')');
        }
        let mut ident: Vec<char> = Vec::new();
        #[verifier::loop_isolation(false)]
        loop
            invariant
                self.wf(),
                self.text() == s,
                start <= self.at() <= s.len(),
                ident@ == s.subrange(start, self.at()),
                ident_end(s, self.at()) == ident_end(s, start),
            decreases s.len() - self.at(),
        {
            if self.pos >= self.chars.len() {
                proof {
                    assert(ident@ =~= s.subrange(start, ident_end(s, start)));
                }
                return chars_string(&ident);
            }
            let c = self.chars[self.pos];
            if char_is_whitespace(c) || c == ')' || c == '(' {
                proof {
                    assert(ident@ =~= s.subrange(start, ident_end(s, start)));
                }
                return chars_string(&ident);
            }
            ident.push(c);
            let _ = self.next();
            proof {
                assert(ident@ =~= s.subrange(start, self.at()));
            }
        }
    }

    /// Produces the next token, or `None` at the end of the text or on a
    /// character no rule covers, or the malformed-number failure: one step
    /// of [`lex_spec`].
    pub fn spit_token(&mut self) -> (r: Result<Option<Token>, LexError>)
        requires
            old(self).wf(),
        ensures
            final(self).text() == old(self).text(),
            final(self).wf(),
            match r {
                Ok(None) => lex_spec(old(self).text(), old(self).at()) == Ok::<
                    Seq<TokenV>,
                    LexError,
                >(Seq::empty()),
                Ok(Some(t)) => final(self).at() > old(self).at() && lex_spec(
                    old(self).text(),
                    old(self).at(),
                ) == cons_tok(t@, lex_spec(old(self).text(), final(self).at())),
                Err(e) => lex_spec(old(self).text(), old(self).at()) == Err::<
                    Seq<TokenV>,
                    LexError,
                >(e),
            },
    {
        let ghost s = self.text();
        let ghost i0 = self.at();
        proof {
            lemma_skip_ws(s, i0);
        }
        self.skip_whitespace();
        let ghost j = self.at();
        if self.pos >= self.chars.len() {
            return Ok(None);
        }
        let c = self.chars[self.pos];
        if c == '(' {
            Ok(Some(self.return_token_advance(Token::LParen)))
        } else if c == ')' {
            Ok(Some(self.return_token_advance(Token::RParen)))
        } else if c == '+' {
            Ok(Some(self.return_token_advance(Token::Plus)))
        } else if c == '-' {
            Ok(Some(self.return_token_advance(Token::Minus)))
        } else if c == '/' {
            Ok(Some(self.return_token_advance(Token::Slash)))
        } else if c == '*' {
            Ok(Some(self.return_token_advance(Token::Astrisk)))
        } else if c == '<' {
            Ok(Some(self.return_token_advance(Token::LT)))
        } else if c == '>' {
            Ok(Some(self.return_token_advance(Token::GT)))
        } else if c == '=' {
            Ok(Some(self.return_token_advance(Token::Equal)))
        } else if c == '!' {
            Ok(Some(self.return_token_advance(Token::NotEqual)))
        } else if c == '"' {
            proof {
                lemma_scan_while(s, j + 1, |ch: char| ch != '"');
            }
            let content = self.read_string();
            Ok(Some(Token::String(content)))
        } else if char_is_alphabetic(c) {
            proof {
                lemma_scan_while(s, j, |ch: char| !whitespace(ch) && ch != '(' && ch != ')');
                assert(ident_end(s, j) >= j + 1);
            }
            let ident = self.read_ident();
            if ident == "def".to_owned() {
                Ok(Some(Token::Def))
            } else if ident == "defn".to_owned() {
                Ok(Some(Token::Defn))
            } else {
                Ok(Some(Token::Ident(ident)))
            }
        } else if char_is_numeric(c) {
            proof {
                lemma_scan_while(s, j, |ch: char| numeric(ch) || ch == '.');
                assert(num_end(s, j) >= j + 1);
            }
            let num = self.read_numeric();
            let cs = str_chars(num.as_str());
            let dots = count_dots(&cs);
            if dots > 0 {
                if check_float_wf(&cs) {
                    Ok(Some(Token::Float(num)))
                } else {
                    Err(LexError::MalformedNumber)
                }
            } else {
                match parse_int_chars(&cs) {
                    Some(v) => Ok(Some(Token::Int(v))),
                    None => Err(LexError::MalformedNumber),
                }
            }
        } else {
            Ok(None)
        }
    }

    /// Tokenizes the whole text, as [`lex_spec`] states from its start.
    pub fn lex(input: &str) -> (r: Result<Vec<Token>, LexError>)
        ensures
            match r {
                Ok(ts) => lex_spec(input@, 0) == Ok::<Seq<TokenV>, LexError>(tokens_model(ts@)),
                Err(e) => lex_spec(input@, 0) == Err::<Seq<TokenV>, LexError>(e),
            },
    {
        let mut lexer = Lexer::new(input);
        let mut tokens: Vec<Token> = Vec::new();
        proof {
            assert(tokens_model(tokens@) =~= Seq::<TokenV>::empty());
        }
        #[verifier::loop_isolation(false)]
        loop
            invariant
                lexer.wf(),
                lexer.text() == input@,
                (match lex_spec(input@, lexer.at()) {
                    Ok(rest) => lex_spec(input@, 0) == Ok::<Seq<TokenV>, LexError>(
                        tokens_model(tokens@) + rest,
                    ),
                    Err(e) => lex_spec(input@, 0) == Err::<Seq<TokenV>, LexError>(e),
                }),
            decreases input@.len() - lexer.at(),
        {
            let ghost at_before = lexer.at();
            match lexer.spit_token() {
                Err(e) => {
                    return Err(e);
                },
                Ok(None) => {
                    proof {
                        assert(tokens_model(tokens@) + Seq::<TokenV>::empty() =~= tokens_model(
                            tokens@,
                        ));
                    }
                    return Ok(tokens);
                },
                Ok(Some(t)) => {
                    let ghost toks_before = tokens@;
                    tokens.push(t);
                    proof {
                        assert(tokens_model(tokens@) =~= tokens_model(toks_before) + seq![t@]);
                        match lex_spec(input@, lexer.at()) {
                            Ok(rest) => {
                                assert(tokens_model(toks_before) + (seq![t@] + rest)
                                    =~= tokens_model(tokens@) + rest);
                            },
                            Err(e) => {},
                        }
                    }
                },
            }
        }
    }
}

/// The count of decimal points in the characters.
fn count_dots(cs: &Vec<char>) -> (r: usize)
    ensures
        r as int == dot_count(cs@),
{
    let mut r: usize = 0;
    let mut k: usize = 0;
    proof {
        assert(cs@.take(0) =~= Seq::<char>::empty());
    }
    #[verifier::loop_isolation(false)]
    while k < cs.len()
        invariant
            k <= cs@.len(),
            r <= k,
            r as int == dot_count(cs@.take(k as int)),
        decreases cs@.len() - k,
    {
        proof {
            assert(cs@.take(k + 1).drop_last() =~= cs@.take(k as int));
            assert(cs@.take(k + 1).last() == cs@[k as int]);
        }
        if cs[k] == '.' {
            r = r + 1;
        }
        k = k + 1;
    }
    proof {
        assert(cs@.take(cs@.len() as int) =~= cs@);
    }
    r
}

/// Whether every character is a decimal digit or a decimal point.
fn all_digit_or_dot(cs: &Vec<char>) -> (r: bool)
    ensures
        r == forall|k: int| 0 <= k < cs@.len() ==> ascii_digit(#[trigger] cs@[k]) || cs@[k] == '.',
{
    let mut k: usize = 0;
    #[verifier::loop_isolation(false)]
    while k < cs.len()
        invariant
            k <= cs@.len(),
            forall|i: int| 0 <= i < k ==> ascii_digit(#[trigger] cs@[i]) || cs@[i] == '.',
        decreases cs@.len() - k,
    {
        let c = cs[k];
        if !(c >= '0' && c <= '9') && c != '.' {
            return false;
        }
        k = k + 1;
    }
    true
}

/// Whether the characters are a well-formed floating-point literal.
fn check_float_wf(cs: &Vec<char>) -> (r: bool)
    ensures
        r == float_wf(cs@),
{
    let dots = count_dots(cs);
    dots == 1 && all_digit_or_dot(cs)
}

/// A prefix of a digit run never exceeds the whole run's value.
proof fn lemma_dec_val_nonneg(t: Seq<char>)
    requires
        forall|k: int| 0 <= k < t.len() ==> ascii_digit(#[trigger] t[k]),
    ensures
        dec_val(t) >= 0,
    decreases t.len(),
{
    if t.len() > 0 {
        lemma_dec_val_nonneg(t.drop_last());
    }
}

proof fn lemma_dec_val_mono(t: Seq<char>, k: int)
    requires
        0 <= k <= t.len(),
        forall|i: int| 0 <= i < t.len() ==> ascii_digit(#[trigger] t[i]),
    ensures
        dec_val(t) >= dec_val(t.take(k)),
    decreases t.len(),
{
    if k == t.len() {
        assert(t.take(k) =~= t);
    } else {
        assert(t.drop_last().take(k) =~= t.take(k));
        lemma_dec_val_mono(t.drop_last(), k);
        lemma_dec_val_nonneg(t.drop_last());
    }
}

/// Parses a run of decimal digits into a machine integer: the value when
/// the run is well formed, nothing when it holds another character or is
/// too large.
fn parse_int_chars(cs: &Vec<char>) -> (r: Option<i64>)
    ensures
        match r {
            Some(v) => int_wf(cs@) && v as int == dec_val(cs@),
            None => !int_wf(cs@),
        },
{
    let mut val: i64 = 0;
    let mut k: usize = 0;
    proof {
        assert(cs@.take(0) =~= Seq::<char>::empty());
    }
    #[verifier::loop_isolation(false)]
    while k < cs.len()
        invariant
            k <= cs@.len(),
            forall|i: int| 0 <= i < k ==> ascii_digit(#[trigger] cs@[i]),
            0 <= val,
            val as int == dec_val(cs@.take(k as int)),
        decreases cs@.len() - k,
    {
        proof {
            assert(cs@.take(k + 1).drop_last() =~= cs@.take(k as int));
            assert(cs@.take(k + 1).last() == cs@[k as int]);
        }
        let c = cs[k];
        if !(c >= '0' && c <= '9') {
            return None;
        }
        let d = ((c as u32) - 48) as i64;
        let v10 = match val.checked_mul(10) {
            Some(v) => v,
            None => {
                proof {
                    if forall|i: int| 0 <= i < cs@.len() ==> ascii_digit(#[trigger] cs@[i]) {
                        lemma_dec_val_mono(cs@, k + 1);
                    }
                }
                return None;
            },
        };
        let v = match v10.checked_add(d) {
            Some(v) => v,
            None => {
                proof {
                    if forall|i: int| 0 <= i < cs@.len() ==> ascii_digit(#[trigger] cs@[i]) {
                        lemma_dec_val_mono(cs@, k + 1);
                    }
                }
                return None;
            },
        };
        val = v;
        k = k + 1;
    }
    proof {
        assert(cs@.take(cs@.len() as int) =~= cs@);
    }
    Some(val)
}

} // verus!
