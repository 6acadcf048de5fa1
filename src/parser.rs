//! The grammar of script files, and the parser that builds the value tree.
//!
//! A file is a sequence of pairs `identifier sign value`. A value is a quoted text, a
//! bare word (a number, a `year.month.day` date or an identifier), a word directly
//! followed by a brace block of values (a named value), or a brace block: an object
//! when it is empty or starts with `identifier sign`, an array of values otherwise.
use crate::lexer::{
    is_space, lex, tokenize, view_tokens, Expected, Fault, SpecToken, Token, TokenKind,
};
use crate::text::chars_of;
use crate::value::{
    lemma_view_pairs_push, lemma_view_values_push, view_pairs, view_values, ConfigPair,
    ConfigValue, SpecPair, SpecValue,
};
use crate::words::{
    date_form, date_of, is_date_form, is_number_form, number_form, number_of, parse_date,
    parse_number,
};
use vstd::prelude::*;

verus! {

/// Where the token at `i` starts, or the end of the input `n` past the last token.
pub open spec fn offset_at(t: Seq<SpecToken>, n: usize, i: int) -> usize {
    if 0 <= i < t.len() {
        t[i].offset
    } else {
        n
    }
}

pub open spec fn kind_is(t: Seq<SpecToken>, i: int, k: TokenKind) -> bool {
    0 <= i < t.len() && t[i].kind == k
}

/// The value of a bare word that is not followed by a brace block.
pub open spec fn word_value(w: Seq<char>, at: usize) -> Result<SpecValue, Fault> {
    if is_number_form(w) {
        match number_of(w) {
            Some(d) => Ok(SpecValue::Number(d)),
            None => Err(Fault { offset: at, expected: Expected::NumberInRange }),
        }
    } else if is_date_form(w) {
        match date_of(w) {
            Some((y, m, d)) => Ok(SpecValue::Date(y, m, d)),
            None => Err(Fault { offset: at, expected: Expected::DateInRange }),
        }
    } else {
        Ok(SpecValue::Identifier(w))
    }
}

pub open spec fn prepend_pairs(
    head: Seq<SpecPair>,
    r: Result<(Seq<SpecPair>, int), Fault>,
) -> Result<(Seq<SpecPair>, int), Fault> {
    match r {
        Ok((tail, j)) => Ok((head + tail, j)),
        Err(f) => Err(f),
    }
}

pub open spec fn prepend_values(
    head: Seq<SpecValue>,
    r: Result<(Seq<SpecValue>, int), Fault>,
) -> Result<(Seq<SpecValue>, int), Fault> {
    match r {
        Ok((tail, j)) => Ok((head + tail, j)),
        Err(f) => Err(f),
    }
}

/// The value that starts at token `i`, and the index of the token after it.
pub open spec fn value_at(t: Seq<SpecToken>, n: usize, i: int) -> Result<(SpecValue, int), Fault>
    decreases t.len() - i, 0int,
{
    if i < 0 || i >= t.len() {
        Err(Fault { offset: n, expected: Expected::Value })
    } else {
        let tok = t[i];
        match tok.kind {
            TokenKind::Open => braced(t, n, i + 1),
            TokenKind::Quoted => Ok((SpecValue::Str(tok.text), i + 1)),
            TokenKind::Word => {
                if !is_number_form(tok.text) && !is_date_form(tok.text) && kind_is(
                    t,
                    i + 1,
                    TokenKind::Open,
                ) {
                    match values_until(t, n, i + 2) {
                        Ok((vs, j)) => Ok((SpecValue::Named(tok.text, vs), j)),
                        Err(f) => Err(f),
                    }
                } else {
                    match word_value(tok.text, tok.offset) {
                        Ok(v) => Ok((v, i + 1)),
                        Err(f) => Err(f),
                    }
                }
            },
            _ => Err(Fault { offset: tok.offset, expected: Expected::Value }),
        }
    }
}

/// The contents of a brace block whose opening brace stands before token `i`.
pub open spec fn braced(t: Seq<SpecToken>, n: usize, i: int) -> Result<(SpecValue, int), Fault>
    decreases t.len() - i, 2int,
{
    if i < 0 || i > t.len() {
        Err(Fault { offset: n, expected: Expected::Value })
    } else if kind_is(t, i, TokenKind::Close) {
        Ok((SpecValue::Object(Seq::empty()), i + 1))
    } else if kind_is(t, i, TokenKind::Word) && kind_is(t, i + 1, TokenKind::Sign) {
        match pairs_until(t, n, i) {
            Ok((ps, j)) => Ok((SpecValue::Object(ps), j)),
            Err(f) => Err(f),
        }
    } else {
        match values_until(t, n, i) {
            Ok((vs, j)) => Ok((SpecValue::Array(vs), j)),
            Err(f) => Err(f),
        }
    }
}

/// The pair that starts at token `i`, and the index of the token after it.
pub open spec fn pair_at(t: Seq<SpecToken>, n: usize, i: int) -> Result<(SpecPair, int), Fault>
    decreases t.len() - i, 0int,
{
    if i < 0 || i > t.len() {
        Err(Fault { offset: n, expected: Expected::Key })
    } else if !kind_is(t, i, TokenKind::Word) {
        Err(Fault { offset: offset_at(t, n, i), expected: Expected::Key })
    } else if !kind_is(t, i + 1, TokenKind::Sign) {
        Err(Fault { offset: offset_at(t, n, i + 1), expected: Expected::Sign })
    } else {
        match value_at(t, n, i + 2) {
            Ok((v, j)) => Ok(
                (SpecPair { identifier: t[i].text, sign: t[i + 1].text, value: v }, j),
            ),
            Err(f) => Err(f),
        }
    }
}

/// The pairs from token `i` up to a closing brace, and the index after that brace.
pub open spec fn pairs_until(t: Seq<SpecToken>, n: usize, i: int) -> Result<
    (Seq<SpecPair>, int),
    Fault,
>
    decreases t.len() - i, 1int,
{
    if i < 0 || i >= t.len() {
        Err(Fault { offset: n, expected: Expected::KeyOrClose })
    } else if t[i].kind == TokenKind::Close {
        Ok((Seq::empty(), i + 1))
    } else {
        match pair_at(t, n, i) {
            Ok((p, j)) => if i < j <= t.len() {
                prepend_pairs(seq![p], pairs_until(t, n, j))
            } else {
                Err(Fault { offset: offset_at(t, n, i), expected: Expected::Key })
            },
            Err(f) => Err(f),
        }
    }
}

/// The values from token `i` up to a closing brace, and the index after that brace.
pub open spec fn values_until(t: Seq<SpecToken>, n: usize, i: int) -> Result<
    (Seq<SpecValue>, int),
    Fault,
>
    decreases t.len() - i, 1int,
{
    if i < 0 || i >= t.len() {
        Err(Fault { offset: n, expected: Expected::ValueOrClose })
    } else if t[i].kind == TokenKind::Close {
        Ok((Seq::empty(), i + 1))
    } else {
        match value_at(t, n, i) {
            Ok((v, j)) => if i < j <= t.len() {
                prepend_values(seq![v], values_until(t, n, j))
            } else {
                Err(Fault { offset: offset_at(t, n, i), expected: Expected::Value })
            },
            Err(f) => Err(f),
        }
    }
}

/// The pairs from token `i` to the end of the file.
pub open spec fn document(t: Seq<SpecToken>, n: usize, i: int) -> Result<Seq<SpecPair>, Fault>
    decreases t.len() - i,
{
    if i < 0 || i >= t.len() {
        Ok(Seq::empty())
    } else {
        match pair_at(t, n, i) {
            Ok((p, j)) => if i < j <= t.len() {
                match document(t, n, j) {
                    Ok(ps) => Ok(seq![p] + ps),
                    Err(f) => Err(f),
                }
            } else {
                Err(Fault { offset: offset_at(t, n, i), expected: Expected::Key })
            },
            Err(f) => Err(f),
        }
    }
}

/// The pairs of a whole file, or its first syntax error.
pub open spec fn parse_text(s: Seq<char>) -> Result<Seq<SpecPair>, Fault> {
    match lex(s, 0) {
        Ok(t) => document(t, s.len() as usize, 0),
        Err(f) => Err(f),
    }
}

// ---------------------------------------------------------------------------
// The executable parser
// ---------------------------------------------------------------------------

pub open spec fn value_result(
    r: Result<(ConfigValue, usize), Fault>,
    s: Result<(SpecValue, int), Fault>,
) -> bool {
    match (r, s) {
        (Ok((v, j)), Ok((sv, sj))) => v@ == sv && j == sj,
        (Err(f), Err(sf)) => f == sf,
        _ => false,
    }
}

pub open spec fn pair_result(
    r: Result<(ConfigPair, usize), Fault>,
    s: Result<(SpecPair, int), Fault>,
) -> bool {
    match (r, s) {
        (Ok((p, j)), Ok((sp, sj))) => p@ == sp && j == sj,
        (Err(f), Err(sf)) => f == sf,
        _ => false,
    }
}

pub open spec fn pairs_result(
    r: Result<(Vec<ConfigPair>, usize), Fault>,
    s: Result<(Seq<SpecPair>, int), Fault>,
) -> bool {
    match (r, s) {
        (Ok((ps, j)), Ok((sps, sj))) => view_pairs(ps@) == sps && j == sj,
        (Err(f), Err(sf)) => f == sf,
        _ => false,
    }
}

pub open spec fn values_result(
    r: Result<(Vec<ConfigValue>, usize), Fault>,
    s: Result<(Seq<SpecValue>, int), Fault>,
) -> bool {
    match (r, s) {
        (Ok((vs, j)), Ok((svs, sj))) => view_values(vs@) == svs && j == sj,
        (Err(f), Err(sf)) => f == sf,
        _ => false,
    }
}

fn kind_at(t: &Vec<Token>, i: usize, k: TokenKind) -> (r: bool)
    ensures
        r == kind_is(view_tokens(t@), i as int, k),
        r ==> i < t@.len() <= usize::MAX,
{
    i < t.len() && t[i].kind == k
}

fn offset_of(t: &Vec<Token>, n: usize, i: usize) -> (r: usize)
    ensures
        r == offset_at(view_tokens(t@), n, i as int),
{
    if i < t.len() {
        t[i].offset
    } else {
        n
    }
}

fn word_value_exec(w: &String, at: usize) -> (r: Result<ConfigValue, Fault>)
    ensures
        match (r, word_value(w@, at)) {
            (Ok(v), Ok(sv)) => v@ == sv,
            (Err(f), Err(sf)) => f == sf,
            _ => false,
        },
{
    let cs = chars_of(w.as_str());
    if number_form(&cs) {
        match parse_number(&cs) {
            Some(d) => Ok(ConfigValue::Number(d)),
            None => Err(Fault { offset: at, expected: Expected::NumberInRange }),
        }
    } else if date_form(&cs) {
        match parse_date(&cs) {
            Some((y, m, d)) => Ok(ConfigValue::Date(y, m, d)),
            None => Err(Fault { offset: at, expected: Expected::DateInRange }),
        }
    } else {
        Ok(ConfigValue::Identifier(w.clone()))
    }
}

fn parse_value(t: &Vec<Token>, n: usize, i: usize) -> (r: Result<(ConfigValue, usize), Fault>)
    ensures
        value_result(r, value_at(view_tokens(t@), n, i as int)),
        r is Ok ==> i < r->Ok_0.1 <= t@.len(),
    decreases t@.len() - i, 0int,
{
    if i >= t.len() {
        return Err(Fault { offset: n, expected: Expected::Value });
    }
    let tok = &t[i];
    match tok.kind {
        TokenKind::Open => parse_braced(t, n, i + 1),
        TokenKind::Quoted => Ok((ConfigValue::String(tok.text.clone()), i + 1)),
        TokenKind::Word => {
            let cs = chars_of(tok.text.as_str());
            if !number_form(&cs) && !date_form(&cs) && kind_at(t, i + 1, TokenKind::Open) {
                match parse_values_until(t, n, i + 2) {
                    Ok((vs, j)) => Ok((ConfigValue::Named(tok.text.clone(), vs), j)),
                    Err(f) => Err(f),
                }
            } else {
                match word_value_exec(&tok.text, tok.offset) {
                    Ok(v) => Ok((v, i + 1)),
                    Err(f) => Err(f),
                }
            }
        },
        _ => Err(Fault { offset: tok.offset, expected: Expected::Value }),
    }
}

fn parse_braced(t: &Vec<Token>, n: usize, i: usize) -> (r: Result<(ConfigValue, usize), Fault>)
    requires
        i <= t@.len(),
    ensures
        value_result(r, braced(view_tokens(t@), n, i as int)),
        r is Ok ==> i < r->Ok_0.1 <= t@.len(),
    decreases t@.len() - i, 2int,
{
    if kind_at(t, i, TokenKind::Close) {
        proof {
            assert(view_pairs(Seq::<ConfigPair>::empty()) =~= Seq::<SpecPair>::empty());
        }
        return Ok((ConfigValue::Object(Vec::new()), i + 1));
    }
    if kind_at(t, i, TokenKind::Word) && kind_at(t, i + 1, TokenKind::Sign) {
        match parse_pairs_until(t, n, i) {
            Ok((ps, j)) => Ok((ConfigValue::Object(ps), j)),
            Err(f) => Err(f),
        }
    } else {
        match parse_values_until(t, n, i) {
            Ok((vs, j)) => Ok((ConfigValue::Array(vs), j)),
            Err(f) => Err(f),
        }
    }
}

fn parse_pair(t: &Vec<Token>, n: usize, i: usize) -> (r: Result<(ConfigPair, usize), Fault>)
    requires
        i <= t@.len(),
    ensures
        pair_result(r, pair_at(view_tokens(t@), n, i as int)),
        r is Ok ==> i < r->Ok_0.1 <= t@.len(),
    decreases t@.len() - i, 0int,
{
    if !kind_at(t, i, TokenKind::Word) {
        return Err(Fault { offset: offset_of(t, n, i), expected: Expected::Key });
    }
    if !kind_at(t, i + 1, TokenKind::Sign) {
        return Err(Fault { offset: offset_of(t, n, i + 1), expected: Expected::Sign });
    }
    match parse_value(t, n, i + 2) {
        Ok((v, j)) => {
            let identifier = t[i].text.clone();
            let sign = t[i + 1].text.clone();
            Ok((ConfigPair { identifier, sign, value: v }, j))
        },
        Err(f) => Err(f),
    }
}

fn parse_pairs_until(
    t: &Vec<Token>,
    n: usize,
    i0: usize,
) -> (r: Result<(Vec<ConfigPair>, usize), Fault>)
    requires
        i0 <= t@.len(),
    ensures
        pairs_result(r, pairs_until(view_tokens(t@), n, i0 as int)),
        r is Ok ==> i0 < r->Ok_0.1 <= t@.len(),
    decreases t@.len() - i0, 1int,
{
    let ghost st = view_tokens(t@);
    let mut acc: Vec<ConfigPair> = Vec::new();
    let mut i = i0;
    assert(view_pairs(acc@) =~= Seq::<SpecPair>::empty());
    assert(prepend_pairs(Seq::empty(), pairs_until(st, n, i0 as int)) =~= pairs_until(
        st,
        n,
        i0 as int,
    ));
    loop
        invariant
            st == view_tokens(t@),
            i0 <= i <= t@.len(),
            pairs_until(st, n, i0 as int) == prepend_pairs(
                view_pairs(acc@),
                pairs_until(st, n, i as int),
            ),
        decreases t@.len() - i,
    {
        if i >= t.len() {
            return Err(Fault { offset: n, expected: Expected::KeyOrClose });
        }
        if t[i].kind == TokenKind::Close {
            proof {
                assert(view_pairs(acc@) + Seq::<SpecPair>::empty() =~= view_pairs(acc@));
            }
            return Ok((acc, i + 1));
        }
        match parse_pair(t, n, i) {
            Ok((p, j)) => {
                proof {
                    lemma_view_pairs_push(acc@, p);
                    let a = view_pairs(acc@);
                    match pairs_until(st, n, j as int) {
                        Ok((tail, k)) => {
                            assert(a + (seq![p@] + tail) =~= a.push(p@) + tail);
                        },
                        Err(_) => {},
                    }
                }
                acc.push(p);
                i = j;
            },
            Err(f) => {
                return Err(f);
            },
        }
    }
}

fn parse_values_until(
    t: &Vec<Token>,
    n: usize,
    i0: usize,
) -> (r: Result<(Vec<ConfigValue>, usize), Fault>)
    requires
        i0 <= t@.len(),
    ensures
        values_result(r, values_until(view_tokens(t@), n, i0 as int)),
        r is Ok ==> i0 < r->Ok_0.1 <= t@.len(),
    decreases t@.len() - i0, 1int,
{
    let ghost st = view_tokens(t@);
    let mut acc: Vec<ConfigValue> = Vec::new();
    let mut i = i0;
    assert(view_values(acc@) =~= Seq::<SpecValue>::empty());
    assert(prepend_values(Seq::empty(), values_until(st, n, i0 as int)) =~= values_until(
        st,
        n,
        i0 as int,
    ));
    loop
        invariant
            st == view_tokens(t@),
            i0 <= i <= t@.len(),
            values_until(st, n, i0 as int) == prepend_values(
                view_values(acc@),
                values_until(st, n, i as int),
            ),
        decreases t@.len() - i,
    {
        if i >= t.len() {
            return Err(Fault { offset: n, expected: Expected::ValueOrClose });
        }
        if t[i].kind == TokenKind::Close {
            proof {
                assert(view_values(acc@) + Seq::<SpecValue>::empty() =~= view_values(acc@));
            }
            return Ok((acc, i + 1));
        }
        match parse_value(t, n, i) {
            Ok((v, j)) => {
                proof {
                    lemma_view_values_push(acc@, v);
                    let a = view_values(acc@);
                    match values_until(st, n, j as int) {
                        Ok((tail, k)) => {
                            assert(a + (seq![v@] + tail) =~= a.push(v@) + tail);
                        },
                        Err(_) => {},
                    }
                }
                acc.push(v);
                i = j;
            },
            Err(f) => {
                return Err(f);
            },
        }
    }
}

fn parse_document(t: &Vec<Token>, n: usize) -> (r: Result<Vec<ConfigPair>, Fault>)
    ensures
        match (r, document(view_tokens(t@), n, 0)) {
            (Ok(ps), Ok(sps)) => view_pairs(ps@) == sps,
            (Err(f), Err(sf)) => f == sf,
            _ => false,
        },
{
    let ghost st = view_tokens(t@);
    let mut acc: Vec<ConfigPair> = Vec::new();
    let mut i: usize = 0;
    assert(view_pairs(acc@) =~= Seq::<SpecPair>::empty());
    loop
        invariant
            st == view_tokens(t@),
            i <= t@.len(),
            document(st, n, 0) == (match document(st, n, i as int) {
                Ok(tail) => Ok(view_pairs(acc@) + tail),
                Err(f) => Err(f),
            }),
        decreases t@.len() - i,
    {
        if i >= t.len() {
            proof {
                assert(view_pairs(acc@) + Seq::<SpecPair>::empty() =~= view_pairs(acc@));
            }
            return Ok(acc);
        }
        match parse_pair(t, n, i) {
            Ok((p, j)) => {
                proof {
                    lemma_view_pairs_push(acc@, p);
                    let a = view_pairs(acc@);
                    match document(st, n, j as int) {
                        Ok(tail) => {
                            assert(a + (seq![p@] + tail) =~= a.push(p@) + tail);
                        },
                        Err(_) => {},
                    }
                }
                acc.push(p);
                i = j;
            },
            Err(f) => {
                return Err(f);
            },
        }
    }
}

} // verus!

verus! {

/// A syntax error: where it is, and what the grammar expected there.
/// `line` and `column` count from zero.
#[derive(Clone, Copy, Debug, PartialEq, Eq, Structural)]
pub struct ParseError {
    pub offset: usize,
    pub line: usize,
    pub column: usize,
    pub expected: Expected,
}

/// How many line breaks stand before index `k` of `s`.
pub open spec fn lines_before(s: Seq<char>, k: int) -> nat
    decreases k,
{
    if k <= 0 {
        0
    } else {
        lines_before(s, k - 1) + if k - 1 < s.len() && s[k - 1] == '\n' {
            1nat
        } else {
            0nat
        }
    }
}

/// The index where the line holding index `k` of `s` starts.
pub open spec fn line_start(s: Seq<char>, k: int) -> int
    decreases k,
{
    if k <= 0 {
        0
    } else if k - 1 < s.len() && s[k - 1] == '\n' {
        k
    } else {
        line_start(s, k - 1)
    }
}

proof fn lemma_line_start_bounds(s: Seq<char>, k: int)
    requires
        k >= 0,
    ensures
        0 <= line_start(s, k) <= k,
        lines_before(s, k) <= k,
    decreases k,
{
    if k > 0 {
        lemma_line_start_bounds(s, k - 1);
    }
}

fn locate(s: &Vec<char>, f: Fault) -> (r: ParseError)
    ensures
        r.offset == f.offset,
        r.expected == f.expected,
        r.line == lines_before(s@, f.offset as int),
        r.column == f.offset - line_start(s@, f.offset as int),
{
    let mut q: usize = 0;
    let mut line: usize = 0;
    let mut start: usize = 0;
    while q < f.offset
        invariant
            q <= f.offset,
            line == lines_before(s@, q as int),
            start == line_start(s@, q as int),
            line <= q,
            start <= q,
        decreases f.offset - q,
    {
        if q < s.len() && s[q] == '\n' {
            line = line + 1;
            start = q + 1;
        }
        q = q + 1;
    }
    ParseError { offset: f.offset, line, column: f.offset - start, expected: f.expected }
}

/// Parses the text of a script file into its top-level pairs, in file order.
pub fn parse_config_file(file: &str) -> (r: Result<Vec<ConfigPair>, ParseError>)
    ensures
        match (r, parse_text(file@)) {
            (Ok(ps), Ok(sps)) => view_pairs(ps@) == sps,
            (Err(e), Err(f)) => {
                &&& e.offset == f.offset
                &&& e.expected == f.expected
                &&& e.line == lines_before(file@, f.offset as int)
                &&& e.column == f.offset - line_start(file@, f.offset as int)
            },
            _ => false,
        },
{
    let cs = chars_of(file);
    match tokenize(&cs) {
        Err(f) => Err(locate(&cs, f)),
        Ok(toks) => match parse_document(&toks, cs.len()) {
            Ok(ps) => Ok(ps),
            Err(f) => Err(locate(&cs, f)),
        },
    }
}

proof fn lemma_lex_blank(s: Seq<char>, i: int)
    requires
        0 <= i,
        forall|k: int| i <= k < s.len() ==> is_space(#[trigger] s[k]),
    ensures
        lex(s, i) == Ok::<Seq<SpecToken>, Fault>(Seq::empty()),
    decreases s.len() - i,
{
    if i < s.len() {
        assert(is_space(s[i]));
        lemma_lex_blank(s, i + 1);
    }
}

/// Text made of whitespace only, the empty text included, parses to no pairs.
pub proof fn lemma_blank_text_has_no_pairs(s: Seq<char>)
    requires
        forall|k: int| 0 <= k < s.len() ==> is_space(#[trigger] s[k]),
    ensures
        parse_text(s) == Ok::<Seq<SpecPair>, Fault>(Seq::empty()),
{
    lemma_lex_blank(s, 0);
}

} // verus!

verus! {

// ---------------------------------------------------------------------------
// Top-level structure
// ---------------------------------------------------------------------------

pub open spec fn depth_change(tok: SpecToken) -> int {
    match tok.kind {
        TokenKind::Open => 1,
        TokenKind::Close => -1,
        _ => 0,
    }
}

/// How many braces are open before token `k`.
pub open spec fn depth(t: Seq<SpecToken>, k: int) -> int
    decreases k,
{
    if k <= 0 {
        0
    } else {
        depth(t, k - 1) + depth_change(t[k - 1])
    }
}

/// The text of the token before `k`.
pub open spec fn key_before(t: Seq<SpecToken>, k: int) -> Seq<char> {
    if k >= 1 {
        t[k - 1].text
    } else {
        Seq::empty()
    }
}

/// For each sign among the first `hi` tokens that stands outside every brace, in
/// order, the word before it.
pub open spec fn top_keys(t: Seq<SpecToken>, hi: int) -> Seq<Seq<char>>
    decreases hi,
{
    if hi <= 0 {
        Seq::empty()
    } else if t[hi - 1].kind == TokenKind::Sign && depth(t, hi - 1) == 0 {
        top_keys(t, hi - 1).push(key_before(t, hi - 1))
    } else {
        top_keys(t, hi - 1)
    }
}

/// From token `i` to token `j`, the depth stays at least `d` and every sign stands
/// deeper than `sd`.
pub open spec fn stays(t: Seq<SpecToken>, i: int, j: int, d: int, sd: int) -> bool {
    forall|k: int|
        i <= k < j ==> depth(t, k) >= d && (t[k].kind == TokenKind::Sign ==> #[trigger] depth(
            t,
            k,
        ) > sd)
}

proof fn lemma_depth_step(t: Seq<SpecToken>, k: int)
    requires
        0 <= k,
    ensures
        depth(t, k + 1) == depth(t, k) + depth_change(t[k]),
{
}

proof fn lemma_value_nests(t: Seq<SpecToken>, n: usize, i: int)
    requires
        0 <= i,
        value_at(t, n, i) is Ok,
    ensures
        i < value_at(t, n, i)->Ok_0.1 <= t.len(),
        depth(t, value_at(t, n, i)->Ok_0.1) == depth(t, i),
        stays(t, i, value_at(t, n, i)->Ok_0.1, depth(t, i), depth(t, i)),
    decreases t.len() - i, 0int,
{
    let tok = t[i];
    lemma_depth_step(t, i);
    lemma_depth_step(t, i + 1);
    match tok.kind {
        TokenKind::Open => {
            lemma_braced_nests(t, n, i + 1);
        },
        TokenKind::Word => {
            if !is_number_form(tok.text) && !is_date_form(tok.text) && kind_is(
                t,
                i + 1,
                TokenKind::Open,
            ) {
                lemma_values_nest(t, n, i + 2);
            }
        },
        _ => {},
    }
}

proof fn lemma_braced_nests(t: Seq<SpecToken>, n: usize, i: int)
    requires
        0 <= i,
        braced(t, n, i) is Ok,
    ensures
        i < braced(t, n, i)->Ok_0.1 <= t.len(),
        depth(t, braced(t, n, i)->Ok_0.1) == depth(t, i) - 1,
        stays(t, i, braced(t, n, i)->Ok_0.1, depth(t, i), depth(t, i) - 1),
    decreases t.len() - i, 2int,
{
    lemma_depth_step(t, i);
    if kind_is(t, i, TokenKind::Close) {
    } else if kind_is(t, i, TokenKind::Word) && kind_is(t, i + 1, TokenKind::Sign) {
        lemma_pairs_nest(t, n, i);
    } else {
        lemma_values_nest(t, n, i);
    }
}

proof fn lemma_pair_nests(t: Seq<SpecToken>, n: usize, i: int)
    requires
        0 <= i,
        pair_at(t, n, i) is Ok,
    ensures
        i + 2 < pair_at(t, n, i)->Ok_0.1 <= t.len(),
        pair_at(t, n, i)->Ok_0.0.identifier == t[i].text,
        depth(t, pair_at(t, n, i)->Ok_0.1) == depth(t, i),
        depth(t, i + 2) == depth(t, i),
        stays(t, i + 2, pair_at(t, n, i)->Ok_0.1, depth(t, i), depth(t, i)),
        stays(t, i, pair_at(t, n, i)->Ok_0.1, depth(t, i), depth(t, i) - 1),
    decreases t.len() - i, 0int,
{
    lemma_depth_step(t, i);
    lemma_depth_step(t, i + 1);
    lemma_value_nests(t, n, i + 2);
}

proof fn lemma_pairs_nest(t: Seq<SpecToken>, n: usize, i: int)
    requires
        0 <= i,
        pairs_until(t, n, i) is Ok,
    ensures
        i < pairs_until(t, n, i)->Ok_0.1 <= t.len(),
        depth(t, pairs_until(t, n, i)->Ok_0.1) == depth(t, i) - 1,
        stays(t, i, pairs_until(t, n, i)->Ok_0.1, depth(t, i), depth(t, i) - 1),
    decreases t.len() - i, 1int,
{
    lemma_depth_step(t, i);
    if t[i].kind != TokenKind::Close {
        let j = pair_at(t, n, i)->Ok_0.1;
        lemma_pair_nests(t, n, i);
        lemma_pairs_nest(t, n, j);
    }
}

proof fn lemma_values_nest(t: Seq<SpecToken>, n: usize, i: int)
    requires
        0 <= i,
        values_until(t, n, i) is Ok,
    ensures
        i < values_until(t, n, i)->Ok_0.1 <= t.len(),
        depth(t, values_until(t, n, i)->Ok_0.1) == depth(t, i) - 1,
        stays(t, i, values_until(t, n, i)->Ok_0.1, depth(t, i), depth(t, i)),
    decreases t.len() - i, 1int,
{
    lemma_depth_step(t, i);
    if t[i].kind != TokenKind::Close {
        let j = value_at(t, n, i)->Ok_0.1;
        lemma_value_nests(t, n, i);
        lemma_values_nest(t, n, j);
    }
}

proof fn lemma_no_top_signs(t: Seq<SpecToken>, a: int, b: int)
    requires
        0 <= a <= b <= t.len(),
        stays(t, a, b, 0, 0),
    ensures
        top_keys(t, b) == top_keys(t, a),
    decreases b - a,
{
    if a < b {
        assert(depth(t, b - 1) >= 0);
        lemma_no_top_signs(t, a, b - 1);
    }
}

proof fn lemma_document_keys(t: Seq<SpecToken>, n: usize, i: int)
    requires
        0 <= i <= t.len(),
        depth(t, i) == 0,
        document(t, n, i) is Ok,
    ensures
        top_keys(t, t.len() as int) == top_keys(t, i) + document(t, n, i)->Ok_0.map_values(
            |p: SpecPair| p.identifier,
        ),
    decreases t.len() - i,
{
    if i < t.len() {
        let j = pair_at(t, n, i)->Ok_0.1;
        let p = pair_at(t, n, i)->Ok_0.0;
        lemma_pair_nests(t, n, i);
        lemma_depth_step(t, i);
        lemma_depth_step(t, i + 1);
        assert(top_keys(t, i + 2) == top_keys(t, i).push(t[i].text)) by {
            assert(top_keys(t, i + 1) == top_keys(t, i));
        }
        lemma_no_top_signs(t, i + 2, j);
        lemma_document_keys(t, n, j);
        let rest = document(t, n, j)->Ok_0;
        assert(document(t, n, i)->Ok_0 == seq![p] + rest);
        assert((seq![p] + rest).map_values(|q: SpecPair| q.identifier) =~= seq![p.identifier]
            + rest.map_values(|q: SpecPair| q.identifier));
        assert(top_keys(t, i).push(t[i].text) + rest.map_values(|q: SpecPair| q.identifier)
            =~= top_keys(t, i) + (seq![p.identifier] + rest.map_values(
            |q: SpecPair| q.identifier,
        )));
    } else {
        assert(document(t, n, i)->Ok_0.map_values(|p: SpecPair| p.identifier) =~= Seq::<
            Seq<char>,
        >::empty());
        assert(top_keys(t, i) + Seq::<Seq<char>>::empty() =~= top_keys(t, i));
    }
}

/// A text that parses gives one pair for each assignment outside every brace, in
/// source order: the identifiers of the pairs are the words before the signs that
/// stand at brace depth zero.
pub proof fn lemma_pairs_follow_top_level_assignments(s: Seq<char>)
    requires
        parse_text(s) is Ok,
    ensures
        lex(s, 0) is Ok,
        parse_text(s)->Ok_0.map_values(|p: SpecPair| p.identifier) == top_keys(
            lex(s, 0)->Ok_0,
            lex(s, 0)->Ok_0.len() as int,
        ),
        parse_text(s)->Ok_0.len() == top_keys(lex(s, 0)->Ok_0, lex(s, 0)->Ok_0.len() as int).len(),
{
    let t = lex(s, 0)->Ok_0;
    lemma_document_keys(t, s.len() as usize, 0);
    assert(top_keys(t, 0) + parse_text(s)->Ok_0.map_values(|p: SpecPair| p.identifier)
        =~= parse_text(s)->Ok_0.map_values(|p: SpecPair| p.identifier));
}

proof fn lemma_document_depth(t: Seq<SpecToken>, n: usize, i: int)
    requires
        0 <= i <= t.len(),
        depth(t, i) == 0,
        document(t, n, i) is Ok,
    ensures
        depth(t, t.len() as int) == 0,
    decreases t.len() - i,
{
    if i < t.len() {
        let j = pair_at(t, n, i)->Ok_0.1;
        lemma_pair_nests(t, n, i);
        lemma_document_depth(t, n, j);
    }
}

/// Text whose braces do not balance, such as text with an object that is never
/// closed, does not parse.
pub proof fn lemma_unbalanced_text_fails(s: Seq<char>)
    requires
        lex(s, 0) is Ok,
        depth(lex(s, 0)->Ok_0, lex(s, 0)->Ok_0.len() as int) != 0,
    ensures
        parse_text(s) is Err,
{
    if parse_text(s) is Ok {
        lemma_document_depth(lex(s, 0)->Ok_0, s.len() as usize, 0);
    }
}

} // verus!
