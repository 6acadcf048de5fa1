//! Splits script text into tokens: braces, signs, quoted texts and bare words.
use crate::text::string_of;
use vstd::prelude::*;

verus! {

/// What the grammar expected where a syntax error was found.
#[derive(Clone, Copy, Debug, PartialEq, Eq, Structural)]
pub enum Expected {
    /// An identifier starting a pair.
    Key,
    /// An assignment or comparison sign after an identifier.
    Sign,
    /// A value after a sign, or inside an array.
    Value,
    /// Another pair of an object, or its closing brace.
    KeyOrClose,
    /// Another value of an array, or its closing brace.
    ValueOrClose,
    /// The closing quote of a quoted text.
    ClosingQuote,
    /// `=` after `!`.
    Equals,
    /// A number whose digits fit in 64 bits.
    NumberInRange,
    /// A date whose year fits in 16 bits and whose month and day fit in 8.
    DateInRange,
}

/// A syntax error at a character offset of the input.
#[derive(Clone, Copy, Debug, PartialEq, Eq, Structural)]
pub struct Fault {
    pub offset: usize,
    pub expected: Expected,
}

#[derive(Clone, Copy, Debug, PartialEq, Eq, Structural)]
pub enum TokenKind {
    Open,
    Close,
    Sign,
    Quoted,
    Word,
}

/// A token: its kind, its text (a quoted text without its quotes) and where it starts.
#[derive(Debug)]
pub struct Token {
    pub kind: TokenKind,
    pub text: String,
    pub offset: usize,
}

pub struct SpecToken {
    pub kind: TokenKind,
    pub text: Seq<char>,
    pub offset: usize,
}

impl View for Token {
    type V = SpecToken;

    open spec fn view(&self) -> SpecToken {
        SpecToken { kind: self.kind, text: self.text@, offset: self.offset }
    }
}

pub open spec fn view_tokens(ts: Seq<Token>) -> Seq<SpecToken> {
    ts.map_values(|t: Token| t@)
}

pub open spec fn is_space(c: char) -> bool {
    c == ' ' || c == '\t' || c == '\n' || c == '\r' || c == '\x0C'
}

pub open spec fn is_sign_char(c: char) -> bool {
    c == '=' || c == '<' || c == '>' || c == '!'
}

/// Characters that can stand in a bare word.
pub open spec fn is_word_char(c: char) -> bool {
    !is_space(c) && !is_sign_char(c) && c != '{' && c != '}' && c != '"' && c != '#'
}

/// The first index from `j` on that ends the comment line: a newline or the end.
pub open spec fn line_end(s: Seq<char>, j: int) -> int
    decreases s.len() - j,
{
    if j >= s.len() || s[j] == '\n' {
        j
    } else {
        line_end(s, j + 1)
    }
}

/// The first index from `j` on that is not a word character.
pub open spec fn word_end(s: Seq<char>, j: int) -> int
    decreases s.len() - j,
{
    if j >= s.len() || !is_word_char(s[j]) {
        j
    } else {
        word_end(s, j + 1)
    }
}

/// The index of the quote that closes a quoted text whose content starts at `j`, or
/// the length when there is none. A backslash keeps the next character in the text.
pub open spec fn quote_end(s: Seq<char>, j: int) -> int
    decreases s.len() - j,
{
    if j >= s.len() {
        s.len() as int
    } else if s[j] == '"' {
        j
    } else if s[j] == '\\' {
        if j + 1 >= s.len() {
            s.len() as int
        } else {
            quote_end(s, j + 2)
        }
    } else {
        quote_end(s, j + 1)
    }
}

pub open spec fn token(kind: TokenKind, text: Seq<char>, offset: int) -> SpecToken {
    SpecToken { kind, text, offset: offset as usize }
}

pub open spec fn prepend_tokens(
    head: Seq<SpecToken>,
    r: Result<Seq<SpecToken>, Fault>,
) -> Result<Seq<SpecToken>, Fault> {
    match r {
        Ok(tail) => Ok(head + tail),
        Err(f) => Err(f),
    }
}

/// The tokens of `s` from index `i` on. Whitespace and `#` comments separate tokens.
pub open spec fn lex(s: Seq<char>, i: int) -> Result<Seq<SpecToken>, Fault>
    decreases s.len() - i,
    via lex_decreases
{
    if i < 0 || i >= s.len() {
        Ok(Seq::empty())
    } else {
        let c = s[i];
        if is_space(c) {
            lex(s, i + 1)
        } else if c == '#' {
            lex(s, line_end(s, i + 1))
        } else if c == '{' {
            prepend_tokens(seq![token(TokenKind::Open, seq!['{'], i)], lex(s, i + 1))
        } else if c == '}' {
            prepend_tokens(seq![token(TokenKind::Close, seq!['}'], i)], lex(s, i + 1))
        } else if c == '"' {
            let k = quote_end(s, i + 1);
            if k >= s.len() {
                Err(Fault { offset: i as usize, expected: Expected::ClosingQuote })
            } else {
                prepend_tokens(
                    seq![token(TokenKind::Quoted, s.subrange(i + 1, k), i)],
                    lex(s, k + 1),
                )
            }
        } else if is_sign_char(c) {
            if i + 1 < s.len() && s[i + 1] == '=' {
                prepend_tokens(
                    seq![token(TokenKind::Sign, s.subrange(i, i + 2), i)],
                    lex(s, i + 2),
                )
            } else if c == '!' {
                Err(Fault { offset: (i + 1) as usize, expected: Expected::Equals })
            } else {
                prepend_tokens(seq![token(TokenKind::Sign, seq![c], i)], lex(s, i + 1))
            }
        } else {
            let k = word_end(s, i + 1);
            prepend_tokens(seq![token(TokenKind::Word, s.subrange(i, k), i)], lex(s, k))
        }
    }
}

#[via_fn]
proof fn lex_decreases(s: Seq<char>, i: int) {
    if 0 <= i < s.len() {
        lemma_line_end_bounds(s, i + 1);
        lemma_quote_end_bounds(s, i + 1);
        lemma_word_end_bounds(s, i + 1);
    }
}

proof fn lemma_line_end_bounds(s: Seq<char>, j: int)
    requires
        0 <= j <= s.len(),
    ensures
        j <= line_end(s, j) <= s.len(),
    decreases s.len() - j,
{
    if j < s.len() && s[j] != '\n' {
        lemma_line_end_bounds(s, j + 1);
    }
}

proof fn lemma_word_end_bounds(s: Seq<char>, j: int)
    requires
        0 <= j <= s.len(),
    ensures
        j <= word_end(s, j) <= s.len(),
    decreases s.len() - j,
{
    if j < s.len() && is_word_char(s[j]) {
        lemma_word_end_bounds(s, j + 1);
    }
}

proof fn lemma_quote_end_bounds(s: Seq<char>, j: int)
    requires
        0 <= j,
    ensures
        j <= s.len() ==> j <= quote_end(s, j),
        quote_end(s, j) <= s.len(),
        quote_end(s, j) < s.len() ==> s[quote_end(s, j)] == '"',
    decreases s.len() - j,
{
    if j < s.len() && s[j] != '"' {
        if s[j] == '\\' {
            if j + 2 <= s.len() {
                lemma_quote_end_bounds(s, j + 2);
            }
        } else {
            lemma_quote_end_bounds(s, j + 1);
        }
    }
}

fn space(c: char) -> (r: bool)
    ensures
        r == is_space(c),
{
    c == ' ' || c == '\t' || c == '\n' || c == '\r' || c == '\x0C'
}

fn sign_char(c: char) -> (r: bool)
    ensures
        r == is_sign_char(c),
{
    c == '=' || c == '<' || c == '>' || c == '!'
}

fn word_char(c: char) -> (r: bool)
    ensures
        r == is_word_char(c),
{
    !space(c) && !sign_char(c) && c != '{' && c != '}' && c != '"' && c != '#'
}

fn find_line_end(s: &Vec<char>, j: usize) -> (r: usize)
    requires
        j <= s@.len(),
    ensures
        r == line_end(s@, j as int),
{
    let mut k = j;
    while k < s.len() && s[k] != '\n'
        invariant
            j <= k <= s@.len(),
            line_end(s@, j as int) == line_end(s@, k as int),
        decreases s.len() - k,
    {
        k = k + 1;
    }
    k
}

fn find_word_end(s: &Vec<char>, j: usize) -> (r: usize)
    requires
        j <= s@.len(),
    ensures
        r == word_end(s@, j as int),
{
    let mut k = j;
    while k < s.len() && word_char(s[k])
        invariant
            j <= k <= s@.len(),
            word_end(s@, j as int) == word_end(s@, k as int),
        decreases s.len() - k,
    {
        k = k + 1;
    }
    k
}

fn find_quote_end(s: &Vec<char>, j: usize) -> (r: usize)
    requires
        j <= s@.len(),
    ensures
        r == quote_end(s@, j as int),
{
    let mut k = j;
    while k < s.len() && s[k] != '"'
        invariant
            j <= k <= s@.len(),
            quote_end(s@, j as int) == quote_end(s@, k as int),
        decreases s.len() - k,
    {
        if s[k] == '\\' {
            if s.len() - k < 2 {
                return s.len();
            }
            k = k + 2;
        } else {
            k = k + 1;
        }
    }
    if k >= s.len() {
        s.len()
    } else {
        k
    }
}

proof fn lemma_push_token(ts: Seq<Token>, t: Token)
    ensures
        view_tokens(ts.push(t)) == view_tokens(ts) + seq![t@],
{
    assert(view_tokens(ts.push(t)) =~= view_tokens(ts) + seq![t@]);
}

/// The tokens of `s`, or the first lexical error.
pub fn tokenize(s: &Vec<char>) -> (r: Result<Vec<Token>, Fault>)
    ensures
        match (r, lex(s@, 0)) {
            (Ok(ts), Ok(st)) => view_tokens(ts@) == st,
            (Err(f), Err(sf)) => f == sf,
            _ => false,
        },
{
    let mut toks: Vec<Token> = Vec::new();
    let mut i: usize = 0;
    let n = s.len();
    assert(view_tokens(toks@) =~= Seq::<SpecToken>::empty());
    while i < n
        invariant
            n == s@.len(),
            i <= n,
            lex(s@, 0) == prepend_tokens(view_tokens(toks@), lex(s@, i as int)),
        decreases n - i,
    {
        let c = s[i];
        let ghost before = view_tokens(toks@);
        if space(c) {
            i = i + 1;
        } else if c == '#' {
            let k = find_line_end(s, i + 1);
            proof {
                lemma_line_end_bounds(s@, i + 1);
            }
            i = k;
        } else if c == '{' || c == '}' {
            let kind = if c == '{' {
                TokenKind::Open
            } else {
                TokenKind::Close
            };
            let t = Token { kind, text: string_of(s, i, i + 1), offset: i };
            proof {
                lemma_push_token(toks@, t);
                assert(s@.subrange(i as int, i + 1) =~= seq![c]);
                assert(before + (seq![t@] + lex(s@, i + 1)->Ok_0) =~= (before + seq![t@]) + lex(
                    s@,
                    i + 1,
                )->Ok_0);
            }
            toks.push(t);
            i = i + 1;
        } else if c == '"' {
            let k = find_quote_end(s, i + 1);
            proof {
                lemma_quote_end_bounds(s@, i + 1);
            }
            if k >= n {
                return Err(Fault { offset: i, expected: Expected::ClosingQuote });
            }
            let t = Token { kind: TokenKind::Quoted, text: string_of(s, i + 1, k), offset: i };
            proof {
                lemma_push_token(toks@, t);
                assert(before + (seq![t@] + lex(s@, k + 1)->Ok_0) =~= (before + seq![t@]) + lex(
                    s@,
                    k + 1,
                )->Ok_0);
            }
            toks.push(t);
            i = k + 1;
        } else if sign_char(c) {
            let len: usize = if i + 1 < n && s[i + 1] == '=' {
                2
            } else {
                1
            };
            if len == 1 && c == '!' {
                return Err(Fault { offset: i + 1, expected: Expected::Equals });
            }
            let t = Token { kind: TokenKind::Sign, text: string_of(s, i, i + len), offset: i };
            proof {
                lemma_push_token(toks@, t);
                if len == 1 {
                    assert(s@.subrange(i as int, i + 1) =~= seq![c]);
                }
                assert(before + (seq![t@] + lex(s@, i + len)->Ok_0) =~= (before + seq![t@])
                    + lex(s@, i + len)->Ok_0);
            }
            toks.push(t);
            i = i + len;
        } else {
            let k = find_word_end(s, i + 1);
            proof {
                lemma_word_end_bounds(s@, i + 1);
            }
            let t = Token { kind: TokenKind::Word, text: string_of(s, i, k), offset: i };
            proof {
                lemma_push_token(toks@, t);
                assert(before + (seq![t@] + lex(s@, k as int)->Ok_0) =~= (before + seq![t@])
                    + lex(s@, k as int)->Ok_0);
            }
            toks.push(t);
            i = k;
        }
    }
    assert(view_tokens(toks@) + Seq::<SpecToken>::empty() =~= view_tokens(toks@));
    Ok(toks)
}

} // verus!
