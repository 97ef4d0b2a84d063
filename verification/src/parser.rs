//! The tree builder: a token sequence to one rooted expression tree, where
//! every parenthesized group becomes an ordered list node.
//!
//! Parsing is given as a mathematical function over the token stack (the
//! remaining tokens, next token last), and the builder is proved to return
//! exactly what it says.

use vstd::prelude::*;

use crate::lexer::{tokens_model, Token, TokenV};
use crate::lsymc::{sym_seq, Lsymc, SymV};

verus! {

/// A failure of the tree builder: the input did not open with a
/// parenthesis, or it ended before the matching closing one.
#[derive(Debug, PartialEq, Eq, Structural)]
pub enum ParserError {
    NotList,
    ShortList,
}

/// The expression a plain (non-parenthesis) token stands for.
pub open spec fn sym_of_token(t: TokenV) -> SymV {
    match t {
        TokenV::Def => SymV::Def,
        TokenV::Defn => SymV::Defn,
        TokenV::Plus => SymV::Plus,
        TokenV::Minus => SymV::Minus,
        TokenV::Astrisk => SymV::Astrisk,
        TokenV::Slash => SymV::Slash,
        TokenV::LT => SymV::LT,
        TokenV::GT => SymV::GT,
        TokenV::Equal => SymV::Equal,
        TokenV::NotEqual => SymV::NotEqual,
        TokenV::String(s) => SymV::String(s),
        TokenV::Ident(s) => SymV::Ident(s),
        TokenV::Int(i) => SymV::Int(i),
        TokenV::Float(t) => SymV::Float(t),
        TokenV::LParen => SymV::Nil,
        TokenV::RParen => SymV::Nil,
    }
}

/// Parses one parenthesized group from the token stack (next token last):
/// the stack must open with `(`, and the group's members run to the
/// matching `)`. The result carries the stack that remains.
pub open spec fn parse_exp_spec(rem: Seq<TokenV>) -> Result<(SymV, Seq<TokenV>), ParserError>
    decreases rem.len(), 0int,
{
    if rem.len() == 0 || !(rem.last() is LParen) {
        Err(ParserError::NotList)
    } else {
        parse_items_spec(rem.drop_last(), Seq::empty())
    }
}

/// Collects a group's members from the token stack until the closing
/// parenthesis: a nested `(` opens a sub-group, any other token is one
/// member, and a stack exhausted first is the short-list failure.
///
/// The guard on the sub-group's remaining stack only carries the
/// termination argument; [`lemma_parse_exp_consumes`] shows a successful
/// sub-parse always leaves a shorter stack, so the guarded arm is never
/// the result.
pub open spec fn parse_items_spec(rem: Seq<TokenV>, acc: Seq<SymV>) -> Result<
    (SymV, Seq<TokenV>),
    ParserError,
>
    decreases rem.len(), 1int,
{
    if rem.len() == 0 {
        Err(ParserError::ShortList)
    } else {
        match rem.last() {
            TokenV::RParen => Ok((SymV::List(acc), rem.drop_last())),
            TokenV::LParen => match parse_exp_spec(rem) {
                Err(e) => Err(e),
                Ok((sub, rem2)) => if rem2.len() < rem.len() {
                    parse_items_spec(rem2, acc.push(sub))
                } else {
                    Err(ParserError::ShortList)
                },
            },
            t => parse_items_spec(rem.drop_last(), acc.push(sym_of_token(t))),
        }
    }
}

/// A successful parse consumes at least the opening parenthesis: the
/// remaining stack is strictly shorter than the one handed in.
pub proof fn lemma_parse_exp_consumes(rem: Seq<TokenV>)
    ensures
        parse_exp_spec(rem) matches Ok((v, rem2)) ==> rem2.len() < rem.len(),
    decreases rem.len(), 0int,
{
    if rem.len() > 0 && rem.last() is LParen {
        lemma_parse_items_consumes(rem.drop_last(), Seq::empty());
    }
}

proof fn lemma_parse_items_consumes(rem: Seq<TokenV>, acc: Seq<SymV>)
    ensures
        parse_items_spec(rem, acc) matches Ok((v, rem2)) ==> rem2.len() < rem.len() + 1,
    decreases rem.len(), 1int,
{
    if rem.len() > 0 {
        match rem.last() {
            TokenV::RParen => {},
            TokenV::LParen => {
                lemma_parse_exp_consumes(rem);
                match parse_exp_spec(rem) {
                    Ok((sub, rem2)) => {
                        if rem2.len() < rem.len() {
                            lemma_parse_items_consumes(rem2, acc.push(sub));
                        }
                    },
                    Err(_) => {},
                }
            },
            t => {
                lemma_parse_items_consumes(rem.drop_last(), acc.push(sym_of_token(t)));
            },
        }
    }
}

/// Parses a token sequence into one rooted expression tree; tokens after
/// the root group's closing parenthesis are left unread.
pub open spec fn parse_spec(toks: Seq<TokenV>) -> Result<SymV, ParserError> {
    match parse_exp_spec(toks.reverse()) {
        Ok((v, _)) => Ok(v),
        Err(e) => Err(e),
    }
}

/// The expression value a plain token becomes, as [`sym_of_token`] states.
fn token_to_lsymc(t: Token) -> (r: Lsymc)
    requires
        !(t@ is LParen),
        !(t@ is RParen),
    ensures
        r@ == sym_of_token(t@),
{
    match t {
        Token::Def => Lsymc::Def,
        Token::Defn => Lsymc::Defn,
        Token::Plus => Lsymc::Plus,
        Token::Minus => Lsymc::Minus,
        Token::Astrisk => Lsymc::Astrisk,
        Token::Slash => Lsymc::Slash,
        Token::LT => Lsymc::LT,
        Token::GT => Lsymc::GT,
        Token::Equal => Lsymc::Equal,
        Token::NotEqual => Lsymc::NotEqual,
        Token::String(s) => Lsymc::String(s),
        Token::Ident(s) => Lsymc::Ident(s),
        Token::Int(i) => Lsymc::Int(i),
        Token::Float(t) => Lsymc::Float(t),
        Token::LParen => Lsymc::Nil,
        Token::RParen => Lsymc::Nil,
    }
}

/// Parses one parenthesized group off the token stack, as
/// [`parse_exp_spec`] states; on success the consumed tokens are gone from
/// the stack.
fn parse_exp(toks: &mut Vec<Token>) -> (r: Result<Lsymc, ParserError>)
    ensures
        match (r, parse_exp_spec(tokens_model(old(toks)@))) {
            (Ok(v), Ok((m, rem))) => v@ == m && tokens_model(final(toks)@) == rem
                && final(toks)@.len() < old(toks)@.len(),
            (Err(e), Err(m)) => e == m,
            _ => false,
        },
    decreases old(toks)@.len(),
{
    let ghost whole = tokens_model(old(toks)@);
    let opened = match toks.pop() {
        Some(Token::LParen) => true,
        _ => false,
    };
    if !opened {
        return Err(ParserError::NotList);
    }
    proof {
        assert(tokens_model(toks@) =~= whole.drop_last());
    }
    let mut acc: Vec<Lsymc> = Vec::new();
    proof {
        assert(sym_seq(acc@) =~= Seq::<SymV>::empty());
    }
    #[verifier::loop_isolation(false)]
    loop
        invariant
            toks@.len() < old(toks)@.len(),
            (parse_items_spec(tokens_model(toks@), sym_seq(acc@)) == parse_exp_spec(whole)),
        decreases toks@.len(),
    {
        let ghost rem = tokens_model(toks@);
        let ghost acc0 = sym_seq(acc@);
        let t = match toks.pop() {
            Some(t) => t,
            None => {
                return Err(ParserError::ShortList);
            },
        };
        proof {
            assert(tokens_model(toks@) =~= rem.drop_last());
            assert(rem.last() == t@);
        }
        match t {
            Token::RParen => {
                let r = Lsymc::List(acc);
                proof {
                    assert(r@ == SymV::List(acc0));
                }
                return Ok(r);
            },
            Token::LParen => {
                toks.push(Token::LParen);
                proof {
                    assert(tokens_model(toks@) =~= rem);
                }
                let sub = match parse_exp(toks) {
                    Ok(v) => v,
                    Err(e) => {
                        return Err(e);
                    },
                };
                let ghost acc_before = acc@;
                acc.push(sub);
                proof {
                    crate::lsymc::lemma_sym_seq_push(acc_before, sub);
                }
            },
            other => {
                let ghost tv = other@;
                let v = token_to_lsymc(other);
                let ghost acc_before = acc@;
                acc.push(v);
                proof {
                    crate::lsymc::lemma_sym_seq_push(acc_before, v);
                }
            },
        }
    }
}

/// Parses a whole token sequence into one rooted expression tree, as
/// [`parse_spec`] states.
pub fn parse(toks: Vec<Token>) -> (r: Result<Lsymc, ParserError>)
    ensures
        match (r, parse_spec(tokens_model(toks@))) {
            (Ok(v), Ok(m)) => v@ == m,
            (Err(e), Err(m)) => e == m,
            _ => false,
        },
{
    let ghost orig = tokens_model(toks@);
    let mut input = toks;
    let mut rev: Vec<Token> = Vec::new();
    proof {
        assert(tokens_model(rev@) =~= orig.skip(input@.len() as int).reverse());
    }
    #[verifier::loop_isolation(false)]
    while input.len() > 0
        invariant
            input@.len() <= orig.len(),
            tokens_model(input@) == orig.take(input@.len() as int),
            tokens_model(rev@) == orig.skip(input@.len() as int).reverse(),
        decreases input@.len(),
    {
        let ghost in_before = input@;
        let ghost rev_before = rev@;
        let t = input.pop().unwrap();
        rev.push(t);
        proof {
            crate::lexer::lemma_tokens_model_push(rev_before, t);
            assert(tokens_model(input@) =~= orig.take(input@.len() as int));
            assert(t == in_before.last());
            assert(tokens_model(in_before)[in_before.len() - 1] == in_before[in_before.len()
                - 1]@);
            assert(t@ == orig[input@.len() as int]);
            assert(orig.skip(input@.len() as int).reverse() =~= orig.skip(
                input@.len() as int + 1,
            ).reverse().push(orig[input@.len() as int]));
        }
    }
    proof {
        assert(tokens_model(rev@) =~= orig.reverse());
    }
    match parse_exp(&mut rev) {
        Ok(v) => Ok(v),
        Err(e) => Err(e),
    }
}

} // verus!
