//! Splitting a calculation into tokens. Words that are not operators,
//! strings or qualified names come out as they were written: whether such a
//! word is a number is decided by the caller.

use vstd::prelude::*;
use super::calc_tokens::{Token, TokenType};
use crate::util::encoding_util::push_char;

verus! {

broadcast use vstd::string::axiom_spec_iter;

/// Why a calculation could not be split into tokens.
#[derive(Debug, Clone, Copy, PartialEq, Eq, Structural)]
pub enum LexerError {
    InvalidCharacter { character: char, position: usize },
    UnterminatedString { position: usize },
    UnexpectedEOF,
}

/// A token, or a word still to be classified as a number or a name.
#[derive(Debug, Clone)]
pub enum RawToken {
    Token(Token),
    Word(String),
}

/// A token or word as text: its kind and text, or the word's text.
pub ghost enum Lexeme {
    Tok(TokenType, Option<Seq<char>>),
    Word(Seq<char>),
}

/// What a token or word stands for.
pub open spec fn lexeme(t: RawToken) -> Lexeme {
    match t {
        RawToken::Token(k) => Lexeme::Tok(
            k.ttype,
            match k.value {
                Some(v) => Some(v@),
                None => None,
            },
        ),
        RawToken::Word(w) => Lexeme::Word(w@),
    }
}

/// What each token or word stands for.
pub open spec fn lexemes(v: Seq<RawToken>) -> Seq<Lexeme> {
    v.map_values(|t: RawToken| lexeme(t))
}

/// `c` has the Unicode White_Space property, as std's
/// `char::is_whitespace` decides.
pub uninterp spec fn white_space(c: char) -> bool;

/// `c` is alphabetic or numeric in Unicode, as std's
/// `char::is_alphanumeric` decides.
pub uninterp spec fn alphanumeric(c: char) -> bool;

/// std's `char::is_whitespace`; its result is named, not spelled out.
#[verifier::external_body]
fn is_whitespace(c: char) -> (r: bool)
    ensures
        r == white_space(c),
{
    c.is_whitespace()
}

/// std's `char::is_alphanumeric`; its result is named, not spelled out.
#[verifier::external_body]
fn is_alphanumeric(c: char) -> (r: bool)
    ensures
        r == alphanumeric(c),
{
    c.is_alphanumeric()
}

/// What the lexer does at the end of input or before a separator: a
/// buffered word, if any, is handed out.
pub open spec fn flushed(out: Seq<Lexeme>, buf: Seq<char>) -> Seq<Lexeme> {
    if buf.len() > 0 {
        out.push(Lexeme::Word(buf))
    } else {
        out
    }
}

/// The token that a single character makes, if it makes one.
pub open spec fn single_token(c: char) -> Option<TokenType> {
    if c == '(' {
        Some(TokenType::OpenParen)
    } else if c == ')' {
        Some(TokenType::CloseParen)
    } else if c == '+' {
        Some(TokenType::Plus)
    } else if c == ',' {
        Some(TokenType::Comma)
    } else if c == '-' {
        Some(TokenType::Minus)
    } else if c == '*' {
        Some(TokenType::Multiply)
    } else if c == '/' {
        Some(TokenType::Divide)
    } else if c == '&' {
        Some(TokenType::Ampersand)
    } else {
        None
    }
}

/// The first index from `k` on that holds a double quote, or the length of
/// `s` when there is none.
pub open spec fn quote_end(s: Seq<char>, k: int) -> int
    decreases s.len() - k,
{
    if k < 0 || k >= s.len() {
        s.len() as int
    } else if s[k] == '"' {
        k
    } else {
        quote_end(s, k + 1)
    }
}

/// The last index of the run that a qualified name takes from `k` on: the
/// character at `k` and every alphanumeric one after it.
pub open spec fn ident_end(s: Seq<char>, k: int) -> int
    decreases s.len() - k,
{
    if k < 0 || k + 1 >= s.len() || !alphanumeric(s[k + 1]) {
        k
    } else {
        ident_end(s, k + 1)
    }
}

/// Where a quoted text closes: at a quote, at or after `k`.
pub proof fn lemma_quote_end(s: Seq<char>, k: int)
    requires
        0 <= k <= s.len(),
    ensures
        k <= quote_end(s, k) <= s.len(),
        quote_end(s, k) < s.len() ==> s[quote_end(s, k)] == '"',
    decreases s.len() - k,
{
    if k < s.len() && s[k] != '"' {
        lemma_quote_end(s, k + 1);
    }
}

/// A qualified name's run ends at or after where it starts, inside the
/// text.
pub proof fn lemma_ident_end(s: Seq<char>, k: int)
    requires
        0 <= k,
    ensures
        k <= ident_end(s, k),
        k < s.len() ==> ident_end(s, k) < s.len(),
    decreases s.len() - k,
{
    if !(k + 1 >= s.len() || !alphanumeric(s[k + 1])) {
        lemma_ident_end(s, k + 1);
    }
}

/// Some character of `t` is alphanumeric.
pub open spec fn has_alphanumeric(t: Seq<char>) -> bool {
    exists|i: int| 0 <= i < t.len() && alphanumeric(#[trigger] t[i])
}

/// How lexing ends: it would panic (an operator `!`, `=`, `<` or `>` at
/// the very end), it fails, or it gives these tokens and words.
pub ghost enum LexEnd {
    Panics,
    Fails(LexerError),
    Done(Seq<Lexeme>),
}

/// Lexing `s` from index `i` on, with the word `buf` buffered and `out`
/// already handed out:
/// - whitespace with nothing buffered is skipped; a space ends a word;
/// - `( ) + , - * / &` end a word and make their token;
/// - `!=` makes a `Neq` (a `!` alone makes nothing); `=` makes an `Eq` when
///   another `=` follows, which is then read again; `<` and `>` make `Ltq`
///   or `Gtq` before a `=` (which is read again), else `Lt` or `Gt`;
/// - a double quote ends a word and reads up to the closing quote, making a
///   `String` token of the quoted text, quotes included, when it holds an
///   alphanumeric character; with no closing quote lexing fails;
/// - a colon must be followed by a second one; the word so far, `::` and the
///   character after and the alphanumeric ones following make an
///   `Identifier`;
/// - every other character is added to the word.
pub open spec fn lex_from(s: Seq<char>, i: int, buf: Seq<char>, out: Seq<Lexeme>) -> LexEnd
    decreases s.len() - i,
{
    if i < 0 || i >= s.len() {
        LexEnd::Done(flushed(out, buf))
    } else {
        let c = s[i];
        let out1 = flushed(out, buf);
        if white_space(c) && buf.len() == 0 {
            lex_from(s, i + 1, buf, out)
        } else if c == ' ' {
            lex_from(s, i + 1, Seq::empty(), out1)
        } else if single_token(c) is Some {
            lex_from(s, i + 1, Seq::empty(), out1.push(Lexeme::Tok(single_token(c)->0, None)))
        } else if c == '!' || c == '=' || c == '<' || c == '>' {
            if i + 1 >= s.len() {
                LexEnd::Panics
            } else {
                let eq = s[i + 1] == '=';
                if c == '!' {
                    if eq {
                        lex_from(s, i + 2, Seq::empty(), out1.push(Lexeme::Tok(TokenType::Neq, None)))
                    } else {
                        lex_from(s, i + 1, Seq::empty(), out1)
                    }
                } else if c == '=' {
                    lex_from(
                        s,
                        i + 1,
                        Seq::empty(),
                        if eq { out1.push(Lexeme::Tok(TokenType::Eq, None)) } else { out1 },
                    )
                } else if c == '<' {
                    lex_from(
                        s,
                        i + 1,
                        Seq::empty(),
                        out1.push(Lexeme::Tok(if eq { TokenType::Ltq } else { TokenType::Lt }, None)),
                    )
                } else {
                    lex_from(
                        s,
                        i + 1,
                        Seq::empty(),
                        out1.push(Lexeme::Tok(if eq { TokenType::Gtq } else { TokenType::Gt }, None)),
                    )
                }
            }
        } else if c == '"' {
            let j = quote_end(s, i + 1);
            proof {
                lemma_quote_end(s, i + 1);
            }
            if j >= s.len() {
                LexEnd::Fails(LexerError::UnterminatedString { position: 20 })
            } else {
                let text = s.subrange(i, j + 1);
                lex_from(
                    s,
                    j + 1,
                    Seq::empty(),
                    if has_alphanumeric(text) { out1.push(Lexeme::Tok(TokenType::String, Some(text))) } else { out1 },
                )
            }
        } else if c == ':' {
            if i + 1 >= s.len() || s[i + 1] != ':' {
                LexEnd::Fails(LexerError::InvalidCharacter { character: ':', position: 20 })
            } else {
                let e = if i + 2 >= s.len() { i + 2 } else { ident_end(s, i + 2) + 1 };
                proof {
                    lemma_ident_end(s, i + 2);
                }
                let name = buf + seq![':', ':'] + s.subrange(i + 2, e);
                lex_from(s, e, Seq::empty(), out.push(Lexeme::Tok(TokenType::Identifier, Some(name))))
            }
        } else {
            lex_from(s, i + 1, buf.push(c), out)
        }
    }
}

/// Each operator character ends the word being read, which is handed out
/// first, and makes its own token: `(` an `OpenParen`, `)` a `CloseParen`,
/// `+` a `Plus`, `,` a `Comma`, `-` a `Minus`, `*` a `Multiply`, `/` a
/// `Divide` and `&` an `Ampersand`; lexing goes on after it with nothing
/// buffered.
pub proof fn lemma_operator_tokens(s: Seq<char>, i: int, buf: Seq<char>, out: Seq<Lexeme>)
    requires
        0 <= i < s.len(),
        buf.len() > 0 || !white_space(s[i]),
    ensures
        s[i] == '(' ==> lex_from(s, i, buf, out) == lex_from(s, i + 1, Seq::empty(), flushed(out, buf).push(
            Lexeme::Tok(TokenType::OpenParen, None),
        )),
        s[i] == ')' ==> lex_from(s, i, buf, out) == lex_from(s, i + 1, Seq::empty(), flushed(out, buf).push(
            Lexeme::Tok(TokenType::CloseParen, None),
        )),
        s[i] == '+' ==> lex_from(s, i, buf, out) == lex_from(s, i + 1, Seq::empty(), flushed(out, buf).push(
            Lexeme::Tok(TokenType::Plus, None),
        )),
        s[i] == ',' ==> lex_from(s, i, buf, out) == lex_from(s, i + 1, Seq::empty(), flushed(out, buf).push(
            Lexeme::Tok(TokenType::Comma, None),
        )),
        s[i] == '-' ==> lex_from(s, i, buf, out) == lex_from(s, i + 1, Seq::empty(), flushed(out, buf).push(
            Lexeme::Tok(TokenType::Minus, None),
        )),
        s[i] == '*' ==> lex_from(s, i, buf, out) == lex_from(s, i + 1, Seq::empty(), flushed(out, buf).push(
            Lexeme::Tok(TokenType::Multiply, None),
        )),
        s[i] == '/' ==> lex_from(s, i, buf, out) == lex_from(s, i + 1, Seq::empty(), flushed(out, buf).push(
            Lexeme::Tok(TokenType::Divide, None),
        )),
        s[i] == '&' ==> lex_from(s, i, buf, out) == lex_from(s, i + 1, Seq::empty(), flushed(out, buf).push(
            Lexeme::Tok(TokenType::Ampersand, None),
        )),
{
}

/// Characters other than the operators, quotes, colons, comparison signs and
/// whitespace are added to the word being read, and lexing goes on at the
/// next character.
pub proof fn lemma_word_characters(s: Seq<char>, i: int, buf: Seq<char>, out: Seq<Lexeme>)
    requires
        0 <= i < s.len(),
        !white_space(s[i]),
        s[i] != ' ' && s[i] != '(' && s[i] != ')' && s[i] != '+' && s[i] != ',' && s[i] != '-' && s[i] != '*'
            && s[i] != '/' && s[i] != '&' && s[i] != '!' && s[i] != '=' && s[i] != '<' && s[i] != '>' && s[i]
            != '"' && s[i] != ':',
    ensures
        lex_from(s, i, buf, out) == lex_from(s, i + 1, buf.push(s[i]), out),
{
}

/// At the end of the text the word being read, if any, is handed out last.
pub proof fn lemma_lex_end(s: Seq<char>, buf: Seq<char>, out: Seq<Lexeme>)
    ensures
        lex_from(s, s.len() as int, buf, out) == LexEnd::Done(
            if buf.len() > 0 { out.push(Lexeme::Word(buf)) } else { out },
        ),
{
}

/// Whitespace before a word is skipped; a space after a word ends it.
pub proof fn lemma_spaces(s: Seq<char>, i: int, buf: Seq<char>, out: Seq<Lexeme>)
    requires
        0 <= i < s.len(),
    ensures
        white_space(s[i]) && buf.len() == 0 ==> lex_from(s, i, buf, out) == lex_from(s, i + 1, buf, out),
        s[i] == ' ' && buf.len() > 0 ==> lex_from(s, i, buf, out) == lex_from(
            s,
            i + 1,
            Seq::empty(),
            out.push(Lexeme::Word(buf)),
        ),
{
}

/// The comparison signs: `!=` makes a `Neq` and both characters are used;
/// a `!` before anything else makes nothing; `=` makes an `Eq` only before
/// another `=`, which is read again; `<` and `>` make `Ltq` and `Gtq` before
/// a `=` (read again), else `Lt` and `Gt`. A sign as the last character
/// makes the lexer panic.
pub proof fn lemma_comparison_tokens(s: Seq<char>, i: int, buf: Seq<char>, out: Seq<Lexeme>)
    requires
        0 <= i < s.len(),
        buf.len() > 0 || !white_space(s[i]),
    ensures
        (s[i] == '!' || s[i] == '=' || s[i] == '<' || s[i] == '>') && i + 1 == s.len() ==> lex_from(s, i, buf, out)
            == LexEnd::Panics,
        i + 1 < s.len() ==> {
            let out1 = if buf.len() > 0 { out.push(Lexeme::Word(buf)) } else { out };
            let eq = s[i + 1] == '=';
            &&& s[i] == '!' && eq ==> lex_from(s, i, buf, out) == lex_from(s, i + 2, Seq::empty(), out1.push(
                Lexeme::Tok(TokenType::Neq, None),
            ))
            &&& s[i] == '!' && !eq ==> lex_from(s, i, buf, out) == lex_from(s, i + 1, Seq::empty(), out1)
            &&& s[i] == '=' && eq ==> lex_from(s, i, buf, out) == lex_from(s, i + 1, Seq::empty(), out1.push(
                Lexeme::Tok(TokenType::Eq, None),
            ))
            &&& s[i] == '=' && !eq ==> lex_from(s, i, buf, out) == lex_from(s, i + 1, Seq::empty(), out1)
            &&& s[i] == '<' && eq ==> lex_from(s, i, buf, out) == lex_from(s, i + 1, Seq::empty(), out1.push(
                Lexeme::Tok(TokenType::Ltq, None),
            ))
            &&& s[i] == '<' && !eq ==> lex_from(s, i, buf, out) == lex_from(s, i + 1, Seq::empty(), out1.push(
                Lexeme::Tok(TokenType::Lt, None),
            ))
            &&& s[i] == '>' && eq ==> lex_from(s, i, buf, out) == lex_from(s, i + 1, Seq::empty(), out1.push(
                Lexeme::Tok(TokenType::Gtq, None),
            ))
            &&& s[i] == '>' && !eq ==> lex_from(s, i, buf, out) == lex_from(s, i + 1, Seq::empty(), out1.push(
                Lexeme::Tok(TokenType::Gt, None),
            ))
        },
{
}

proof fn lemma_quote_end_at(s: Seq<char>, k: int, j: int)
    requires
        0 <= k <= j < s.len(),
        s[j] == '"',
        forall|m: int| k <= m < j ==> s[m] != '"',
    ensures
        quote_end(s, k) == j,
    decreases j - k,
{
    if k < j {
        lemma_quote_end_at(s, k + 1, j);
    }
}

proof fn lemma_quote_end_none(s: Seq<char>, k: int)
    requires
        0 <= k <= s.len(),
        forall|m: int| k <= m < s.len() ==> s[m] != '"',
    ensures
        quote_end(s, k) == s.len(),
    decreases s.len() - k,
{
    if k < s.len() {
        lemma_quote_end_none(s, k + 1);
    }
}

/// A double quote ends the word being read and takes the text up to the
/// next double quote: the quoted text, quotes included, is a `String` token
/// when some character of it is alphanumeric, and nothing otherwise. With no
/// closing quote lexing fails.
pub proof fn lemma_quoted_text(s: Seq<char>, i: int, j: int, buf: Seq<char>, out: Seq<Lexeme>)
    requires
        0 <= i < s.len(),
        s[i] == '"',
        buf.len() > 0 || !white_space(s[i]),
        i < j,
        forall|m: int| i < m < j && m < s.len() ==> s[m] != '"',
        j >= s.len() || s[j] == '"',
    ensures
        j >= s.len() ==> lex_from(s, i, buf, out) == LexEnd::Fails(LexerError::UnterminatedString { position: 20 }),
        j < s.len() ==> {
            let out1 = if buf.len() > 0 { out.push(Lexeme::Word(buf)) } else { out };
            let text = s.subrange(i, j + 1);
            lex_from(s, i, buf, out) == lex_from(
                s,
                j + 1,
                Seq::empty(),
                if exists|m: int| 0 <= m < text.len() && alphanumeric(#[trigger] text[m]) {
                    out1.push(Lexeme::Tok(TokenType::String, Some(text)))
                } else {
                    out1
                },
            )
        },
{
    if j < s.len() {
        lemma_quote_end_at(s, i + 1, j);
    } else {
        lemma_quote_end_none(s, i + 1);
    }
}

proof fn lemma_ident_end_at(s: Seq<char>, k: int, e: int)
    requires
        0 <= k < e <= s.len(),
        forall|m: int| k < m < e ==> alphanumeric(s[m]),
        e == s.len() || !alphanumeric(s[e]),
    ensures
        ident_end(s, k) == e - 1,
    decreases e - k,
{
    if k + 1 < e {
        lemma_ident_end_at(s, k + 1, e);
    }
}

/// A colon must be followed by a second one, else lexing fails. The word
/// read so far, `::`, the character after them and the alphanumeric
/// characters that follow make an `Identifier` token, and lexing goes on
/// after them.
pub proof fn lemma_qualified_name(s: Seq<char>, i: int, e: int, buf: Seq<char>, out: Seq<Lexeme>)
    requires
        0 <= i < s.len(),
        s[i] == ':',
        buf.len() > 0 || !white_space(s[i]),
        i + 2 <= e <= s.len(),
        e == i + 2 ==> e == s.len(),
        forall|m: int| i + 2 < m < e ==> alphanumeric(s[m]),
        e > i + 2 ==> e == s.len() || !alphanumeric(s[e]),
    ensures
        i + 1 == s.len() || s[i + 1] != ':' ==> lex_from(s, i, buf, out) == LexEnd::Fails(
            LexerError::InvalidCharacter { character: ':', position: 20 },
        ),
        i + 1 < s.len() && s[i + 1] == ':' ==> lex_from(s, i, buf, out) == lex_from(
            s,
            e,
            Seq::empty(),
            out.push(Lexeme::Tok(TokenType::Identifier, Some(buf + seq![':', ':'] + s.subrange(i + 2, e)))),
        ),
{
    if e > i + 2 {
        lemma_ident_end_at(s, i + 2, e);
    }
}

/// What lexing all of `s` gives.
pub open spec fn lex_spec(s: Seq<char>) -> LexEnd {
    lex_from(s, 0, Seq::empty(), Seq::empty())
}

fn chars_of(s: &str) -> (r: Vec<char>)
    ensures
        r@ == s@,
{
    let mut out: Vec<char> = Vec::new();
    for ch in it: s.chars()
        invariant
            out@ == it.seq().take(it.index()),
    {
        proof {
            assert(it.seq().take(it.index() + 1) =~= it.seq().take(it.index()).push(ch));
        }
        out.push(ch);
    }
    assert(s@.take(s@.len() as int) =~= s@);
    out
}

fn string_of(v: &Vec<char>) -> (r: String)
    ensures
        r@ == v@,
{
    let mut out = String::new();
    let mut i: usize = 0;
    while i < v.len()
        invariant
            i <= v@.len(),
            out@ == v@.take(i as int),
        decreases v.len() - i,
    {
        assert(v@.take(i as int + 1) =~= v@.take(i as int).push(v@[i as int]));
        push_char(&mut out, v[i]);
        i = i + 1;
    }
    assert(v@.take(v@.len() as int) =~= v@);
    out
}

proof fn lemma_lexemes_push(v: Seq<RawToken>, t: RawToken)
    ensures
        lexemes(v.push(t)) == lexemes(v).push(lexeme(t)),
{
    assert(lexemes(v.push(t)) =~= lexemes(v).push(lexeme(t)));
}

fn push_token(out: &mut Vec<RawToken>, t: RawToken)
    ensures
        lexemes(final(out)@) == lexemes(old(out)@).push(lexeme(t)),
{
    proof {
        lemma_lexemes_push(out@, t);
    }
    out.push(t);
}

fn flush(out: &mut Vec<RawToken>, buf: &Vec<char>)
    ensures
        lexemes(final(out)@) == flushed(lexemes(old(out)@), buf@),
{
    if buf.len() > 0 {
        let w = string_of(buf);
        push_token(out, RawToken::Word(w));
    }
}

fn token_for(c: char) -> (r: Option<TokenType>)
    ensures
        r == single_token(c),
{
    if c == '(' {
        Some(TokenType::OpenParen)
    } else if c == ')' {
        Some(TokenType::CloseParen)
    } else if c == '+' {
        Some(TokenType::Plus)
    } else if c == ',' {
        Some(TokenType::Comma)
    } else if c == '-' {
        Some(TokenType::Minus)
    } else if c == '*' {
        Some(TokenType::Multiply)
    } else if c == '/' {
        Some(TokenType::Divide)
    } else if c == '&' {
        Some(TokenType::Ampersand)
    } else {
        None
    }
}

fn any_alphanumeric(t: &Vec<char>) -> (r: bool)
    ensures
        r == has_alphanumeric(t@),
{
    let mut i: usize = 0;
    while i < t.len()
        invariant
            i <= t@.len(),
            forall|j: int| 0 <= j < i ==> !alphanumeric(#[trigger] t@[j]),
        decreases t.len() - i,
    {
        if is_alphanumeric(t[i]) {
            return true;
        }
        i = i + 1;
    }
    false
}

/// Reads a quoted text starting at `i` (the opening quote): the text,
/// quotes included, and the index after it, or `None` with no closing quote.
fn read_quoted(cs: &Vec<char>, i: usize) -> (r: Option<(Vec<char>, usize)>)
    requires
        i < cs@.len(),
    ensures
        match r {
            Some((t, e)) => i < e <= cs@.len() && quote_end(cs@, i + 1) < cs@.len() && e == quote_end(cs@, i + 1) + 1 && t@ == cs@.subrange(
                i as int,
                e as int,
            ),
            None => quote_end(cs@, i + 1) >= cs@.len(),
        },
{
    let n = cs.len();
    let mut t: Vec<char> = Vec::new();
    t.push(cs[i]);
    let mut j = i + 1;
    proof {
        lemma_quote_end(cs@, i + 1);
    }
    while j < cs.len()
        invariant
            i < j <= cs@.len(),
            quote_end(cs@, i + 1) == quote_end(cs@, j as int),
            t@ == cs@.subrange(i as int, j as int),
        decreases cs.len() - j,
    {
        let c = cs[j];
        t.push(c);
        assert(t@ =~= cs@.subrange(i as int, j + 1));
        if c == '"' {
            return Some((t, j + 1));
        }
        j = j + 1;
    }
    None
}

/// Reads the run of a qualified name from `k` on (see `ident_end`),
/// appending it to `buf`; gives the index after it.
fn read_name(cs: &Vec<char>, k: usize, buf: &mut Vec<char>) -> (e: usize)
    requires
        k <= cs@.len(),
    ensures
        e == (if k >= cs@.len() { k as int } else { ident_end(cs@, k as int) + 1 }),
        k <= e <= cs@.len(),
        k < cs@.len() ==> k < e,
        final(buf)@ == old(buf)@ + cs@.subrange(k as int, e as int),
{
    let ghost start = buf@;
    if k >= cs.len() {
        assert(cs@.subrange(k as int, k as int) =~= Seq::<char>::empty());
        assert(buf@ =~= start + cs@.subrange(k as int, k as int));
        return k;
    }
    proof {
        lemma_ident_end(cs@, k as int);
    }
    let mut j = k;
    loop
        invariant
            k <= j < cs@.len(),
            ident_end(cs@, k as int) == ident_end(cs@, j as int),
            start == old(buf)@,
            buf@ == start + cs@.subrange(k as int, j as int),
        decreases cs.len() - j,
    {
        buf.push(cs[j]);
        assert(buf@ =~= start + cs@.subrange(k as int, j + 1));
        if j + 1 >= cs.len() || !is_alphanumeric(cs[j + 1]) {
            assert(ident_end(cs@, j as int) == j as int);
            return j + 1;
        }
        j = j + 1;
    }
}

/// Splits `calculation_string` into tokens and words, as `lex_spec` says;
/// the caller decides which words are numbers. `None` where the lexer
/// would panic: an operator `!`, `=`, `<` or `>` read as the last character.
pub fn lex_checked(calculation_string: &str) -> (r: Option<Result<Vec<RawToken>, LexerError>>)
    ensures
        match lex_spec(calculation_string@) {
            LexEnd::Done(ls) => r matches Some(Ok(v)) && lexemes(v@) == ls,
            LexEnd::Fails(e) => r == Some(Err::<Vec<RawToken>, LexerError>(e)),
            LexEnd::Panics => r is None,
        },
{
    let cs = chars_of(calculation_string);
    let ghost whole = lex_spec(calculation_string@);
    let n = cs.len();
    let mut i: usize = 0;
    let mut buf: Vec<char> = Vec::new();
    let mut out: Vec<RawToken> = Vec::new();
    assert(lexemes(out@) =~= Seq::<Lexeme>::empty());
    while i < n
        invariant
            n == cs@.len(),
            i <= n,
            lex_from(cs@, i as int, buf@, lexemes(out@)) == whole,
            whole == lex_spec(calculation_string@),
            cs@ == calculation_string@,
        decreases n - i,
    {
        let c = cs[i];
        let ghost before = lexemes(out@);
        let ghost b0 = buf@;
        if is_whitespace(c) && buf.len() == 0 {
            i = i + 1;
        } else if c == ' ' {
            flush(&mut out, &buf);
            buf = Vec::new();
            i = i + 1;
        } else if let Some(t) = token_for(c) {
            flush(&mut out, &buf);
            buf = Vec::new();
            push_token(&mut out, RawToken::Token(Token::new(t)));
            i = i + 1;
        } else if c == '!' || c == '=' || c == '<' || c == '>' {
            if i + 1 >= n {
                return None;
            }
            flush(&mut out, &buf);
            buf = Vec::new();
            let eq = cs[i + 1] == '=';
            if c == '!' {
                if eq {
                    push_token(&mut out, RawToken::Token(Token::new(TokenType::Neq)));
                    i = i + 2;
                } else {
                    i = i + 1;
                }
            } else if c == '=' {
                if eq {
                    push_token(&mut out, RawToken::Token(Token::new(TokenType::Eq)));
                }
                i = i + 1;
            } else if c == '<' {
                let t = if eq { TokenType::Ltq } else { TokenType::Lt };
                push_token(&mut out, RawToken::Token(Token::new(t)));
                i = i + 1;
            } else {
                let t = if eq { TokenType::Gtq } else { TokenType::Gt };
                push_token(&mut out, RawToken::Token(Token::new(t)));
                i = i + 1;
            }
        } else if c == '"' {
            flush(&mut out, &buf);
            buf = Vec::new();
            match read_quoted(&cs, i) {
                Some((t, e)) => {
                    if any_alphanumeric(&t) {
                        let text = string_of(&t);
                        push_token(&mut out, RawToken::Token(Token::with_value(TokenType::String, text)));
                    }
                    i = e;
                },
                None => {
                    return Some(Err(LexerError::UnterminatedString { position: 20 }));
                },
            }
        } else if c == ':' {
            if i + 1 >= n || cs[i + 1] != ':' {
                return Some(Err(LexerError::InvalidCharacter { character: ':', position: 20 }));
            }
            buf.push(':');
            buf.push(':');
            let e = read_name(&cs, i + 2, &mut buf);
            let name = string_of(&buf);
            push_token(&mut out, RawToken::Token(Token::with_value(TokenType::Identifier, name)));
            buf = Vec::new();
            proof {
                lemma_ident_end(cs@, i + 2);
                assert(b0.push(':').push(':') =~= b0 + seq![':', ':']);
            }
            i = e;
        } else {
            buf.push(c);
            i = i + 1;
        }
    }
    flush(&mut out, &buf);
    Some(Ok(out))
}

/// Splits `calculation_string` into tokens and words, as `lex_spec` says,
/// on a text where the lexer does not panic (see `lex_checked`).
pub fn lex_words(calculation_string: &str) -> (r: Result<Vec<RawToken>, LexerError>)
    requires
        !(lex_spec(calculation_string@) is Panics),
    ensures
        match lex_spec(calculation_string@) {
            LexEnd::Done(ls) => r matches Ok(v) && lexemes(v@) == ls,
            LexEnd::Fails(e) => r == Err::<Vec<RawToken>, LexerError>(e),
            LexEnd::Panics => false,
        },
{
    match lex_checked(calculation_string) {
        Some(r) => r,
        None => Err(LexerError::UnexpectedEOF),
    }
}

} // verus!
