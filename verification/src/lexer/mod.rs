//! The Turtle tokenizer: longest-match lexing of the Turtle terminals.
pub mod dfa;
pub mod scan;

use crate::chars::{is_ws, ws};
use crate::text::{
    byte_offset, byte_offsets, chars_of, lemma_byte_offset_bound, lemma_byte_offset_step, string_of,
};
use crate::token::{Span, Spanned, StringStyle, Token, TokenV};
use dfa::{is_keyword, kind_at, kind_at_exec, Kind, N_KINDS};
use scan::{longest, longest_exec};
use vstd::prelude::*;
use vstd::string::StringSliceAdditionalSpecFns;

verus! {

/// A piece of text that is no Turtle token.
#[derive(Clone, Debug)]
pub struct TokenError {
    pub span: Span,
    pub msg: String,
}

impl View for TokenError {
    type V = (Span, Seq<char>);

    open spec fn view(&self) -> (Span, Seq<char>) {
        (self.span, self.msg@)
    }
}

/// Among the first `n` terminals, the one with the longest lexeme at `j`
/// (the earliest on ties), and the end of that lexeme.
pub open spec fn best_upto(s: Seq<char>, j: int, n: int) -> Option<(Kind, int)>
    decreases n,
{
    if n <= 0 {
        None
    } else {
        let b = best_upto(s, j, n - 1);
        match longest(s, j, kind_at(n - 1)) {
            Some(e) => match b {
                Some((bk, be)) => if e > be {
                    Some((kind_at(n - 1), e))
                } else {
                    b
                },
                None => Some((kind_at(n - 1), e)),
            },
            None => b,
        }
    }
}

/// The terminal whose lexeme at `j` is longest (the earliest on ties).
pub open spec fn best(s: Seq<char>, j: int) -> Option<(Kind, int)> {
    best_upto(s, j, N_KINDS as int)
}

/// The first position at or after `i` that is no whitespace.
pub open spec fn skip_ws(s: Seq<char>, i: int) -> int
    decreases s.len() - i,
{
    if 0 <= i < s.len() && is_ws(s[i]) {
        skip_ws(s, i + 1)
    } else {
        i
    }
}

/// The end of the run of non-whitespace characters that starts at `i`.
pub open spec fn invalid_end(s: Seq<char>, i: int) -> int
    decreases s.len() - i,
{
    if 0 <= i < s.len() && !is_ws(s[i]) {
        invalid_end(s, i + 1)
    } else {
        i
    }
}

/// The first index of `c` in `t`, searching from `i`.
pub open spec fn index_from(t: Seq<char>, c: char, i: int) -> Option<int>
    decreases t.len() - i,
{
    if i < 0 || i >= t.len() {
        None
    } else if t[i] == c {
        Some(i)
    } else {
        index_from(t, c, i + 1)
    }
}

/// A prefixed name `pre:local` read from `s[a..b]`: split at its first
/// colon, or an invalid token when it holds none.
pub open spec fn pname(s: Seq<char>, a: int, b: int) -> TokenV {
    match index_from(s.subrange(a, b), ':', 0) {
        Some(c) => TokenV::PNameLN(
            Some(s.subrange(a, a + c)),
            s.subrange(a + c + 1, b),
        ),
        None => TokenV::Invalid(s.subrange(a, b)),
    }
}

/// The tokens (with character spans) made of the lexeme `s[j..e]` of `k`.
pub open spec fn emit(s: Seq<char>, k: Kind, j: int, e: int) -> Seq<(TokenV, int, int)> {
    let text = s.subrange(j, e);
    match k {
        Kind::Prefix => seq![(TokenV::PrefixTag, j, e)],
        Kind::SqPrefix => seq![(TokenV::SparqlPrefix, j, e)],
        Kind::Base => seq![(TokenV::BaseTag, j, e)],
        Kind::SqBase => seq![(TokenV::SparqlBase, j, e)],
        Kind::SqOpen => seq![(TokenV::SqOpen, j, e)],
        Kind::SqClose => seq![(TokenV::SqClose, j, e)],
        Kind::BraceOpen => seq![(TokenV::BracketOpen, j, e)],
        Kind::BraceClose => seq![(TokenV::BracketClose, j, e)],
        Kind::TypeTag => seq![(TokenV::PredType, j, e)],
        Kind::Semi => seq![(TokenV::PredicateSplit, j, e)],
        Kind::Comma => seq![(TokenV::Comma, j, e)],
        Kind::Stop => seq![(TokenV::Stop, j, e)],
        Kind::DataTag => seq![(TokenV::DataTypeDelim, j, e)],
        Kind::True => seq![(TokenV::True, j, e)],
        Kind::False => seq![(TokenV::False, j, e)],
        Kind::BlankNodeLabel => seq![(TokenV::BlankNodeLabel(text), j, e)],
        Kind::Double | Kind::Decimal | Kind::Integer => seq![(TokenV::Number(text), j, e)],
        Kind::IntegerWithDot => seq![
            (TokenV::Number(s.subrange(j, e - 1)), j, e - 1),
            (TokenV::Stop, e - 1, e),
        ],
        Kind::LangTag => seq![(TokenV::LangTag(s.subrange(j + 1, e)), j, e)],
        Kind::StrQuote => seq![(TokenV::Str(s.subrange(j + 1, e - 1), StringStyle::Double), j, e)],
        Kind::StrSingle => seq![(TokenV::Str(s.subrange(j + 1, e - 1), StringStyle::Single), j, e)],
        Kind::StrLongSingle => seq![
            (TokenV::Str(s.subrange(j + 3, e - 3), StringStyle::SingleLong), j, e),
        ],
        Kind::StrLongQuote => seq![
            (TokenV::Str(s.subrange(j + 3, e - 3), StringStyle::DoubleLong), j, e),
        ],
        Kind::IriRef => seq![(TokenV::IRIRef(s.subrange(j + 1, e - 1)), j, e)],
        Kind::PNameNs | Kind::PNameLn => if s[e - 1] == '.' {
            seq![(pname(s, j, e - 1), j, e - 1), (TokenV::Stop, e - 1, e)]
        } else {
            seq![(pname(s, j, e), j, e)]
        },
        Kind::Comment => seq![(TokenV::Comment(text), j, e)],
    }
}

/// The tokens (character spans) and the spans of the unreadable pieces of
/// `s[i..]`: whitespace is skipped; at each other position the longest
/// lexeme of any terminal is taken, and where there is none, the run of
/// characters up to the next whitespace is an invalid token.
pub open spec fn lex_from(s: Seq<char>, i: int) -> (Seq<(TokenV, int, int)>, Seq<(int, int)>)
    decreases s.len() - i,
{
    let j = skip_ws(s, i);
    if !(0 <= i <= j < s.len()) {
        (Seq::empty(), Seq::empty())
    } else {
        match best(s, j) {
            Some((k, e)) => if j < e <= s.len() {
                let rest = lex_from(s, e);
                (emit(s, k, j, e) + rest.0, rest.1)
            } else {
                (Seq::empty(), Seq::empty())
            },
            None => {
                let e = invalid_end(s, j);
                if j < e <= s.len() {
                    let rest = lex_from(s, e);
                    (
                        seq![(TokenV::Invalid(s.subrange(j, e)), j, e)] + rest.0,
                        seq![(j, e)] + rest.1,
                    )
                } else {
                    (Seq::empty(), Seq::empty())
                }
            },
        }
    }
}

/// The token with its character span turned into a byte span of `s`.
pub open spec fn at_bytes(s: Seq<char>, t: (TokenV, int, int)) -> (TokenV, Span) {
    (t.0, Span { start: byte_offset(s, t.1) as usize, end: byte_offset(s, t.2) as usize })
}

/// The error message for the unreadable text `t`.
pub open spec fn unexpected_msg(t: Seq<char>) -> Seq<char> {
    seq!['U', 'n', 'e', 'x', 'p', 'e', 'c', 't', 'e', 'd', ' ', 't', 'o', 'k', 'e', 'n', ' ', '\'']
        + t + seq!['\'']
}

/// The error for the unreadable piece `s[a..b]`, with its byte span.
pub open spec fn error_at(s: Seq<char>, e: (int, int)) -> (Span, Seq<char>) {
    (
        Span { start: byte_offset(s, e.0) as usize, end: byte_offset(s, e.1) as usize },
        unexpected_msg(s.subrange(e.0, e.1)),
    )
}

/// The tokens of `text`, with byte spans.
pub open spec fn lex_tokens(text: Seq<char>) -> Seq<(TokenV, Span)> {
    lex_from(text, 0).0.map_values(|t: (TokenV, int, int)| at_bytes(text, t))
}

/// The errors of `text`, with byte spans.
pub open spec fn lex_errors(text: Seq<char>) -> Seq<(Span, Seq<char>)> {
    lex_from(text, 0).1.map_values(|e: (int, int)| error_at(text, e))
}

} // verus!

verus! {

/// Tokens with byte spans, as plain values.
pub open spec fn spans_view(v: Seq<Spanned<Token>>) -> Seq<(TokenV, Span)> {
    v.map_values(|x: Spanned<Token>| x@)
}

/// Errors as plain values.
pub open spec fn errors_view(v: Seq<TokenError>) -> Seq<(Span, Seq<char>)> {
    v.map_values(|x: TokenError| x@)
}

/// A lower bound on the number of characters read before reaching state `st`
/// (for the terminals whose lexemes carry delimiters).
pub open spec fn min_read(k: Kind, st: u8) -> int {
    match k {
        Kind::StrQuote | Kind::StrSingle | Kind::IriRef => if st == 1 {
            0
        } else if st == 3 {
            2
        } else {
            1
        },
        Kind::StrLongSingle | Kind::StrLongQuote => if st == 1 {
            0
        } else if st == 2 {
            1
        } else if st == 3 {
            2
        } else if st == 4 {
            3
        } else if st == 5 {
            4
        } else if st == 6 {
            5
        } else if st == 7 {
            6
        } else {
            4
        },
        _ => 0,
    }
}

pub proof fn lemma_min_read(k: Kind, t: Seq<char>)
    requires
        scan::run(k, t) != dfa::DEAD,
    ensures
        min_read(k, scan::run(k, t)) <= t.len(),
    decreases t.len(),
{
    if t.len() > 0 {
        dfa::lemma_dead_absorbs(k, t.last());
        lemma_min_read(k, t.drop_last());
    }
}

/// The lexeme of a delimited terminal holds both delimiters.
pub proof fn lemma_delimited_len(k: Kind, t: Seq<char>)
    requires
        scan::matches(k, t),
    ensures
        (k == Kind::StrQuote || k == Kind::StrSingle || k == Kind::IriRef) ==> t.len() >= 2,
        (k == Kind::StrLongSingle || k == Kind::StrLongQuote) ==> t.len() >= 6,
{
    dfa::lemma_dead_absorbs(k, ' ');
    lemma_min_read(k, t);
}

pub proof fn lemma_longest_upto(s: Seq<char>, j: int, k: Kind, hi: int)
    requires
        0 <= j,
        hi <= s.len(),
    ensures
        longest_upto_ok(s, j, k, scan::longest_upto(s, j, k, hi)),
    decreases hi - j,
{
    if hi > j && !scan::matches(k, s.subrange(j, hi)) {
        lemma_longest_upto(s, j, k, hi - 1);
    }
}

pub open spec fn longest_upto_ok(s: Seq<char>, j: int, k: Kind, r: Option<int>) -> bool {
    r matches Some(e) ==> j < e <= s.len() && scan::matches(k, s.subrange(j, e))
}

pub proof fn lemma_best_upto(s: Seq<char>, j: int, n: int)
    requires
        0 <= j,
    ensures
        best_upto(s, j, n) matches Some((k, e)) ==> j < e <= s.len() && scan::matches(
            k,
            s.subrange(j, e),
        ),
    decreases n,
{
    if n > 0 {
        lemma_best_upto(s, j, n - 1);
        lemma_longest_upto(s, j, kind_at(n - 1), s.len() as int);
    }
}

pub proof fn lemma_skip_ws(s: Seq<char>, i: int)
    requires
        0 <= i <= s.len(),
    ensures
        i <= skip_ws(s, i) <= s.len(),
        skip_ws(s, i) < s.len() ==> !is_ws(s[skip_ws(s, i)]),
    decreases s.len() - i,
{
    if i < s.len() && is_ws(s[i]) {
        lemma_skip_ws(s, i + 1);
    }
}

pub proof fn lemma_invalid_end(s: Seq<char>, i: int)
    requires
        0 <= i <= s.len(),
    ensures
        i <= invalid_end(s, i) <= s.len(),
        i < s.len() && !is_ws(s[i]) ==> i < invalid_end(s, i),
    decreases s.len() - i,
{
    if i < s.len() && !is_ws(s[i]) {
        lemma_invalid_end(s, i + 1);
    }
}

fn skip_ws_exec(s: &Vec<char>, i: usize) -> (r: usize)
    requires
        i <= s.len(),
    ensures
        r == skip_ws(s@, i as int),
{
    let mut p = i;
    while p < s.len() && ws(s[p])
        invariant
            i <= p <= s.len(),
            skip_ws(s@, p as int) == skip_ws(s@, i as int),
        decreases s.len() - p,
    {
        p = p + 1;
    }
    p
}

fn invalid_end_exec(s: &Vec<char>, i: usize) -> (r: usize)
    requires
        i <= s.len(),
    ensures
        r == invalid_end(s@, i as int),
{
    let mut p = i;
    while p < s.len() && !ws(s[p])
        invariant
            i <= p <= s.len(),
            invalid_end(s@, p as int) == invalid_end(s@, i as int),
        decreases s.len() - p,
    {
        p = p + 1;
    }
    p
}

fn best_exec(s: &Vec<char>, j: usize) -> (r: Option<(Kind, usize)>)
    requires
        j <= s.len(),
    ensures
        match r {
            Some((k, e)) => best(s@, j as int) == Some((k, e as int)),
            None => best(s@, j as int) is None,
        },
{
    let mut b: Option<(Kind, usize)> = None;
    let mut n: usize = 0;
    while n < N_KINDS
        invariant
            n <= N_KINDS,
            j <= s.len(),
            match b {
                Some((k, e)) => best_upto(s@, j as int, n as int) == Some((k, e as int)),
                None => best_upto(s@, j as int, n as int) is None,
            },
        decreases N_KINDS - n,
    {
        let k = kind_at_exec(n);
        match longest_exec(s, j, k) {
            Some(e) => {
                match b {
                    Some((_, be)) => {
                        if e > be {
                            b = Some((k, e));
                        }
                    },
                    None => {
                        b = Some((k, e));
                    },
                }
            },
            None => {},
        }
        n = n + 1;
    }
    b
}

/// The first index of `c` in `s[a..b]`, relative to `a`.
fn index_from_exec(s: &Vec<char>, a: usize, b: usize, c: char) -> (r: Option<usize>)
    requires
        a <= b <= s.len(),
    ensures
        match r {
            Some(x) => index_from(s@.subrange(a as int, b as int), c, 0) == Some(x as int),
            None => index_from(s@.subrange(a as int, b as int), c, 0) is None,
        },
{
    let ghost t = s@.subrange(a as int, b as int);
    let mut p = a;
    while p < b
        invariant
            a <= p <= b <= s.len(),
            t == s@.subrange(a as int, b as int),
            index_from(t, c, (p - a) as int) == index_from(t, c, 0),
        decreases b - p,
    {
        if s[p] == c {
            return Some(p - a);
        }
        p = p + 1;
    }
    None
}

fn pname_exec(s: &Vec<char>, a: usize, b: usize) -> (r: Token)
    requires
        a <= b <= s.len(),
    ensures
        r@ == pname(s@, a as int, b as int),
{
    match index_from_exec(s, a, b, ':') {
        Some(c) => {
            proof {
                lemma_index_from(s@.subrange(a as int, b as int), ':', 0);
            }
            Token::PNameLN(Some(string_of(s, a, a + c)), string_of(s, a + c + 1, b))
        },
        None => Token::Invalid(string_of(s, a, b)),
    }
}

pub proof fn lemma_index_from(t: Seq<char>, c: char, i: int)
    requires
        0 <= i,
    ensures
        index_from(t, c, i) matches Some(x) ==> i <= x < t.len() && t[x] == c,
    decreases t.len() - i,
{
    if i < t.len() && t[i] != c {
        lemma_index_from(t, c, i + 1);
    }
}

fn push_token(
    out: &mut Vec<Spanned<Token>>,
    s: &Vec<char>,
    offs: &Vec<usize>,
    t: Token,
    a: usize,
    b: usize,
)
    requires
        a <= b <= s.len(),
        offs.len() == s.len() + 1,
        forall|i: int| 0 <= i <= s.len() ==> #[trigger] offs[i] == byte_offset(s@, i),
    ensures
        spans_view(final(out)@) == spans_view(old(out)@).push(at_bytes(s@, (t@, a as int, b as int))),
{
    proof {
        lemma_byte_offset_bound(s@, a as int);
        lemma_byte_offset_bound(s@, b as int);
    }
    let ghost t_v = t@;
    out.push(Spanned(t, Span { start: offs[a], end: offs[b] }));
    assert(spans_view(out@) =~= spans_view(old(out)@).push(at_bytes(s@, (t_v, a as int, b as int))));
}

} // verus!

verus! {

fn emit_exec(
    out: &mut Vec<Spanned<Token>>,
    s: &Vec<char>,
    offs: &Vec<usize>,
    k: Kind,
    j: usize,
    e: usize,
)
    requires
        j < e <= s.len(),
        scan::matches(k, s@.subrange(j as int, e as int)),
        offs.len() == s.len() + 1,
        forall|i: int| 0 <= i <= s.len() ==> #[trigger] offs[i] == byte_offset(s@, i),
    ensures
        spans_view(final(out)@) == spans_view(old(out)@) + emit(s@, k, j as int, e as int).map_values(
            |t: (TokenV, int, int)| at_bytes(s@, t),
        ),
{
    proof {
        lemma_delimited_len(k, s@.subrange(j as int, e as int));
    }
    let ghost before = spans_view(out@);
    let ghost em = emit(s@, k, j as int, e as int);
    match k {
        Kind::Prefix => push_token(out, s, offs, Token::PrefixTag, j, e),
        Kind::SqPrefix => push_token(out, s, offs, Token::SparqlPrefix, j, e),
        Kind::Base => push_token(out, s, offs, Token::BaseTag, j, e),
        Kind::SqBase => push_token(out, s, offs, Token::SparqlBase, j, e),
        Kind::SqOpen => push_token(out, s, offs, Token::SqOpen, j, e),
        Kind::SqClose => push_token(out, s, offs, Token::SqClose, j, e),
        Kind::BraceOpen => push_token(out, s, offs, Token::BracketOpen, j, e),
        Kind::BraceClose => push_token(out, s, offs, Token::BracketClose, j, e),
        Kind::TypeTag => push_token(out, s, offs, Token::PredType, j, e),
        Kind::Semi => push_token(out, s, offs, Token::PredicateSplit, j, e),
        Kind::Comma => push_token(out, s, offs, Token::Comma, j, e),
        Kind::Stop => push_token(out, s, offs, Token::Stop, j, e),
        Kind::DataTag => push_token(out, s, offs, Token::DataTypeDelim, j, e),
        Kind::True => push_token(out, s, offs, Token::True, j, e),
        Kind::False => push_token(out, s, offs, Token::False, j, e),
        Kind::BlankNodeLabel => push_token(
            out,
            s,
            offs,
            Token::BlankNodeLabel(string_of(s, j, e)),
            j,
            e,
        ),
        Kind::Double | Kind::Decimal | Kind::Integer => push_token(
            out,
            s,
            offs,
            Token::Number(string_of(s, j, e)),
            j,
            e,
        ),
        Kind::IntegerWithDot => {
            push_token(out, s, offs, Token::Number(string_of(s, j, e - 1)), j, e - 1);
            push_token(out, s, offs, Token::Stop, e - 1, e);
        },
        Kind::LangTag => push_token(out, s, offs, Token::LangTag(string_of(s, j + 1, e)), j, e),
        Kind::StrQuote => push_token(
            out,
            s,
            offs,
            Token::Str(string_of(s, j + 1, e - 1), StringStyle::Double),
            j,
            e,
        ),
        Kind::StrSingle => push_token(
            out,
            s,
            offs,
            Token::Str(string_of(s, j + 1, e - 1), StringStyle::Single),
            j,
            e,
        ),
        Kind::StrLongSingle => push_token(
            out,
            s,
            offs,
            Token::Str(string_of(s, j + 3, e - 3), StringStyle::SingleLong),
            j,
            e,
        ),
        Kind::StrLongQuote => push_token(
            out,
            s,
            offs,
            Token::Str(string_of(s, j + 3, e - 3), StringStyle::DoubleLong),
            j,
            e,
        ),
        Kind::IriRef => push_token(out, s, offs, Token::IRIRef(string_of(s, j + 1, e - 1)), j, e),
        Kind::PNameNs | Kind::PNameLn => {
            if s[e - 1] == '.' {
                push_token(out, s, offs, pname_exec(s, j, e - 1), j, e - 1);
                push_token(out, s, offs, Token::Stop, e - 1, e);
            } else {
                push_token(out, s, offs, pname_exec(s, j, e), j, e);
            }
        },
        Kind::Comment => push_token(out, s, offs, Token::Comment(string_of(s, j, e)), j, e),
    }
    assert(spans_view(out@) =~= before + em.map_values(|t: (TokenV, int, int)| at_bytes(s@, t)));
}

fn unexpected_exec(s: &Vec<char>, a: usize, b: usize) -> (r: String)
    requires
        a <= b <= s.len(),
    ensures
        r@ == unexpected_msg(s@.subrange(a as int, b as int)),
{
    let mut m = String::new();
    m.push('U');
    m.push('n');
    m.push('e');
    m.push('x');
    m.push('p');
    m.push('e');
    m.push('c');
    m.push('t');
    m.push('e');
    m.push('d');
    m.push(' ');
    m.push('t');
    m.push('o');
    m.push('k');
    m.push('e');
    m.push('n');
    m.push(' ');
    m.push('\'');
    let mut i = a;
    let ghost head = m@;
    while i < b
        invariant
            a <= i <= b <= s.len(),
            m@ == head + s@.subrange(a as int, i as int),
        decreases b - i,
    {
        m.push(s[i]);
        proof {
            assert(s@.subrange(a as int, i + 1) =~= s@.subrange(a as int, i as int).push(s@[i as int]));
        }
        i = i + 1;
    }
    m.push('\'');
    assert(m@ =~= unexpected_msg(s@.subrange(a as int, b as int)));
    m
}

/// Tokenizes `text`. Returns the tokens with their byte spans, and an error
/// for every run of characters that starts no token.
pub fn parse_tokens_str(text: &str) -> (r: (Vec<Spanned<Token>>, Vec<TokenError>))
    ensures
        spans_view(r.0@) == lex_tokens(text@),
        errors_view(r.1@) == lex_errors(text@),
{
    let s = chars_of(text);
    proof {
        lemma_byte_offset_bound(s@, 0);
    }
    let nbytes = text.as_bytes().len();
    assert(text.spec_bytes() == vstd::utf8::encode_utf8(text@));
    let offs = byte_offsets(&s, nbytes);
    let mut tokens: Vec<Spanned<Token>> = Vec::new();
    let mut errors: Vec<TokenError> = Vec::new();
    let ghost whole = lex_from(s@, 0);
    let ghost mut done_t: Seq<(TokenV, int, int)> = Seq::empty();
    let ghost mut done_e: Seq<(int, int)> = Seq::empty();
    let mut i: usize = 0;
    loop
        invariant
            i <= s.len(),
            s@ == text@,
            offs.len() == s.len() + 1,
            forall|x: int| 0 <= x <= s.len() ==> #[trigger] offs[x] == byte_offset(s@, x),
            whole == lex_from(s@, 0),
            done_t + lex_from(s@, i as int).0 == whole.0,
            done_e + lex_from(s@, i as int).1 == whole.1,
            spans_view(tokens@) == done_t.map_values(|t: (TokenV, int, int)| at_bytes(s@, t)),
            errors_view(errors@) == done_e.map_values(|e: (int, int)| error_at(s@, e)),
        ensures
            s@ == text@,
            done_t == whole.0,
            done_e == whole.1,
            spans_view(tokens@) == done_t.map_values(|t: (TokenV, int, int)| at_bytes(s@, t)),
            errors_view(errors@) == done_e.map_values(|e: (int, int)| error_at(s@, e)),
        decreases s.len() - i,
    {
        let j = skip_ws_exec(&s, i);
        proof {
            lemma_skip_ws(s@, i as int);
        }
        if j >= s.len() {
            assert(lex_from(s@, i as int).0 =~= Seq::<(TokenV, int, int)>::empty());
            assert(done_t =~= whole.0);
            assert(done_e =~= whole.1);
            break;
        }
        proof {
            lemma_best_upto(s@, j as int, N_KINDS as int);
        }
        match best_exec(&s, j) {
            Some((k, e)) => {
                let ghost em = emit(s@, k, j as int, e as int);
                emit_exec(&mut tokens, &s, &offs, k, j, e);
                proof {
                    assert(done_t + em + lex_from(s@, e as int).0 =~= whole.0);
                    assert((done_t + em).map_values(|t: (TokenV, int, int)| at_bytes(s@, t))
                        =~= done_t.map_values(|t: (TokenV, int, int)| at_bytes(s@, t))
                        + em.map_values(|t: (TokenV, int, int)| at_bytes(s@, t)));
                    done_t = done_t + em;
                }
                i = e;
            },
            None => {
                let e = invalid_end_exec(&s, j);
                proof {
                    lemma_invalid_end(s@, j as int);
                }
                let ghost tv = seq![(TokenV::Invalid(s@.subrange(j as int, e as int)), j as int, e as int)];
                push_token(&mut tokens, &s, &offs, Token::Invalid(string_of(&s, j, e)), j, e);
                proof {
                    lemma_byte_offset_bound(s@, j as int);
                    lemma_byte_offset_bound(s@, e as int);
                }
                let msg = unexpected_exec(&s, j, e);
                let ghost errs_before = errors_view(errors@);
                let err = TokenError { span: Span { start: offs[j], end: offs[e] }, msg };
                assert(err@ == error_at(s@, (j as int, e as int)));
                errors.push(err);
                assert(errors_view(errors@) =~= errs_before.push(error_at(s@, (j as int, e as int))));
                proof {
                    assert(done_t + tv + lex_from(s@, e as int).0 =~= whole.0);
                    assert(done_e + seq![(j as int, e as int)] + lex_from(s@, e as int).1 =~= whole.1);
                    assert((done_t + tv).map_values(|t: (TokenV, int, int)| at_bytes(s@, t))
                        =~= done_t.map_values(|t: (TokenV, int, int)| at_bytes(s@, t)).push(
                        at_bytes(s@, tv[0]),
                    ));
                    assert(errors_view(errors@) =~= (done_e + seq![(j as int, e as int)]).map_values(
                        |e: (int, int)| error_at(s@, e),
                    ));
                    done_t = done_t + tv;
                    done_e = done_e + seq![(j as int, e as int)];
                }
                i = e;
            },
        }
    }
    assert(spans_view(tokens@) =~= lex_tokens(text@));
    assert(errors_view(errors@) =~= lex_errors(text@));
    (tokens, errors)
}

} // verus!

verus! {

/// Tokenizes `text`, failing with the errors when some piece of it starts no
/// token.
pub fn parse_tokens_str_safe(text: &str) -> (r: Result<Vec<Spanned<Token>>, Vec<TokenError>>)
    ensures
        match r {
            Ok(t) => lex_errors(text@).len() == 0 && spans_view(t@) == lex_tokens(text@),
            Err(e) => lex_errors(text@).len() > 0 && errors_view(e@) == lex_errors(text@),
        },
{
    let (t, e) = parse_tokens_str(text);
    if e.len() == 0 {
        Ok(t)
    } else {
        Err(e)
    }
}

} // verus!

verus! {

/// Character ranges that lie in `lo..hi`, each in order, one after the other.
pub open spec fn ranges_in_order(r: Seq<(int, int)>, lo: int, hi: int) -> bool {
    &&& forall|k: int| 0 <= k < r.len() ==> lo <= #[trigger] r[k].0 <= r[k].1 <= hi
    &&& forall|k: int| 0 <= k < r.len() - 1 ==> #[trigger] r[k].1 <= r[k + 1].0
}

pub open spec fn token_ranges(t: Seq<(TokenV, int, int)>) -> Seq<(int, int)> {
    t.map_values(|x: (TokenV, int, int)| (x.1, x.2))
}

proof fn lemma_concat_in_order(a: Seq<(int, int)>, b: Seq<(int, int)>, lo: int, mid: int, hi: int)
    requires
        lo <= mid <= hi,
        ranges_in_order(a, lo, mid),
        ranges_in_order(b, mid, hi),
    ensures
        ranges_in_order(a + b, lo, hi),
{
    let c = a + b;
    assert forall|k: int| 0 <= k < c.len() implies lo <= #[trigger] c[k].0 <= c[k].1 <= hi by {
        if k < a.len() {
            assert(c[k] == a[k]);
            assert(lo <= a[k].0 <= a[k].1 <= mid);
        } else {
            assert(c[k] == b[k - a.len()]);
            assert(mid <= b[k - a.len()].0 <= b[k - a.len()].1 <= hi);
        }
    }
    assert forall|k: int| 0 <= k < c.len() - 1 implies #[trigger] c[k].1 <= c[k + 1].0 by {
        if k + 1 < a.len() {
            assert(c[k] == a[k] && c[k + 1] == a[k + 1]);
            assert(a[k].1 <= a[k + 1].0);
        } else if k + 1 == a.len() {
            assert(c[k] == a[k] && c[k + 1] == b[0]);
            assert(lo <= a[k].0 <= a[k].1 <= mid);
            assert(mid <= b[0].0 <= b[0].1 <= hi);
        } else {
            assert(c[k] == b[k - a.len()] && c[k + 1] == b[k + 1 - a.len()]);
            assert(b[k - a.len()].1 <= b[k - a.len() + 1].0);
        }
    }
}

proof fn lemma_emit_in_order(s: Seq<char>, k: Kind, j: int, e: int)
    requires
        j < e,
    ensures
        ranges_in_order(token_ranges(emit(s, k, j, e)), j, e),
{
    let r = token_ranges(emit(s, k, j, e));
    assert(r.len() <= 2);
    if k == Kind::IntegerWithDot || ((k == Kind::PNameNs || k == Kind::PNameLn) && s[e - 1] == '.') {
        assert(r =~= seq![(j, e - 1), (e - 1, e)]);
    } else {
        assert(r =~= seq![(j, e)]);
    }
}

/// The tokens read from position `i` on lie in the text in order, one after
/// the other; so do the pieces that could not be read, and none of those
/// is empty.
pub proof fn lemma_lex_in_order(s: Seq<char>, i: int)
    requires
        0 <= i <= s.len(),
    ensures
        ranges_in_order(token_ranges(lex_from(s, i).0), i, s.len() as int),
        ranges_in_order(lex_from(s, i).1, i, s.len() as int),
        forall|k: int|
            0 <= k < lex_from(s, i).1.len() ==> #[trigger] lex_from(s, i).1[k].0 < lex_from(
                s,
                i,
            ).1[k].1,
    decreases s.len() - i,
{
    lemma_skip_ws(s, i);
    let j = skip_ws(s, i);
    if i <= j < s.len() {
        lemma_best_upto(s, j, N_KINDS as int);
        match best(s, j) {
            Some((k, e)) => {
                if j < e <= s.len() {
                    lemma_lex_in_order(s, e);
                    lemma_emit_in_order(s, k, j, e);
                    let rest = lex_from(s, e);
                    assert(token_ranges(emit(s, k, j, e) + rest.0) =~= token_ranges(emit(s, k, j, e))
                        + token_ranges(rest.0));
                    lemma_concat_in_order(
                        token_ranges(emit(s, k, j, e)),
                        token_ranges(rest.0),
                        i,
                        e,
                        s.len() as int,
                    );
                }
            },
            None => {
                lemma_invalid_end(s, j);
                let e = invalid_end(s, j);
                if j < e <= s.len() {
                    lemma_lex_in_order(s, e);
                    let rest = lex_from(s, e);
                    let head = seq![(TokenV::Invalid(s.subrange(j, e)), j, e)];
                    assert(token_ranges(head + rest.0) =~= token_ranges(head) + token_ranges(
                        rest.0,
                    ));
                    assert(token_ranges(head) =~= seq![(j, e)]);
                    lemma_concat_in_order(seq![(j, e)], token_ranges(rest.0), i, e, s.len() as int);
                    lemma_concat_in_order(seq![(j, e)], rest.1, i, e, s.len() as int);
                    let all = seq![(j, e)] + rest.1;
                    assert forall|k: int| 0 <= k < all.len() implies #[trigger] all[k].0 < all[k].1 by {
                        if k > 0 {
                            assert(all[k] == rest.1[k - 1]);
                        }
                    }
                }
            },
        }
    }
}

/// Some range of `r` holds position `x`.
pub open spec fn covers(r: Seq<(int, int)>, x: int) -> bool {
    exists|m: int| 0 <= m < r.len() && r[m].0 <= x < #[trigger] r[m].1
}

proof fn lemma_covers_concat(a: Seq<(int, int)>, b: Seq<(int, int)>, x: int)
    requires
        covers(a, x) || covers(b, x),
    ensures
        covers(a + b, x),
{
    let c = a + b;
    if covers(a, x) {
        let m = choose|m: int| 0 <= m < a.len() && a[m].0 <= x < #[trigger] a[m].1;
        assert(c[m] == a[m]);
    } else {
        let m = choose|m: int| 0 <= m < b.len() && b[m].0 <= x < #[trigger] b[m].1;
        assert(c[a.len() + m] == b[m]);
    }
}

proof fn lemma_skip_ws_all(s: Seq<char>, i: int)
    requires
        0 <= i <= s.len(),
    ensures
        forall|x: int| i <= x < skip_ws(s, i) ==> is_ws(#[trigger] s[x]),
    decreases s.len() - i,
{
    if i < s.len() && is_ws(s[i]) {
        lemma_skip_ws_all(s, i + 1);
    }
}

/// Every character from position `i` on that is no whitespace lies in a
/// token: the tokens, invalid ones included, cover all of the text but its
/// whitespace.
pub proof fn lemma_lex_covers(s: Seq<char>, i: int)
    requires
        0 <= i <= s.len(),
    ensures
        forall|x: int|
            i <= x < s.len() && !is_ws(#[trigger] s[x]) ==> covers(
                token_ranges(lex_from(s, i).0),
                x,
            ),
    decreases s.len() - i,
{
    lemma_skip_ws(s, i);
    lemma_skip_ws_all(s, i);
    let j = skip_ws(s, i);
    if j < s.len() {
        lemma_best_upto(s, j, N_KINDS as int);
        let (head, e): (Seq<(int, int)>, int) = match best(s, j) {
            Some((k, e)) => {
                lemma_emit_in_order(s, k, j, e);
                let r = token_ranges(emit(s, k, j, e));
                if k == Kind::IntegerWithDot || ((k == Kind::PNameNs || k == Kind::PNameLn)
                    && s[e - 1] == '.') {
                    assert(r =~= seq![(j, e - 1), (e - 1, e)]);
                } else {
                    assert(r =~= seq![(j, e)]);
                }
                (r, e)
            },
            None => {
                lemma_invalid_end(s, j);
                let e = invalid_end(s, j);
                (seq![(j, e)], e)
            },
        };
        lemma_lex_covers(s, e);
        let rest = lex_from(s, e);
        assert(token_ranges(lex_from(s, i).0) =~= head + token_ranges(rest.0)) by {
            match best(s, j) {
                Some((k, e2)) => {
                    assert(token_ranges(emit(s, k, j, e2) + rest.0) =~= token_ranges(
                        emit(s, k, j, e2),
                    ) + token_ranges(rest.0));
                },
                None => {
                    let t = seq![(TokenV::Invalid(s.subrange(j, e)), j, e)];
                    assert(token_ranges(t + rest.0) =~= token_ranges(t) + token_ranges(rest.0));
                    assert(token_ranges(t) =~= seq![(j, e)]);
                },
            }
        }
        assert forall|x: int| i <= x < s.len() && !is_ws(#[trigger] s[x]) implies covers(
            token_ranges(lex_from(s, i).0),
            x,
        ) by {
            if x < e {
                assert(j <= x);
                if head.len() == 2 && x >= e - 1 {
                    assert(head[1].0 <= x < head[1].1);
                } else {
                    assert(head[0].0 <= x < head[0].1);
                }
                lemma_covers_concat(head, token_ranges(rest.0), x);
            } else {
                lemma_covers_concat(head, token_ranges(rest.0), x);
            }
        }
    }
}

proof fn lemma_byte_offset_mono(s: Seq<char>, a: int, b: int)
    requires
        0 <= a <= b <= s.len(),
    ensures
        byte_offset(s, a) <= byte_offset(s, b),
        a < b ==> byte_offset(s, a) < byte_offset(s, b),
    decreases b - a,
{
    if a < b {
        lemma_byte_offset_mono(s, a, b - 1);
        lemma_byte_offset_step(s, b - 1);
        assert(vstd::utf8::encode_scalar(s[b - 1] as u32).len() >= 1);
    }
}

/// In bytes, the tokens of a text lie in order one after the other within
/// its UTF-8 encoding, and so do its errors, none of which is empty.
pub proof fn lemma_lex_bytes(text: Seq<char>)
    requires
        vstd::utf8::encode_utf8(text).len() <= usize::MAX,
    ensures
        forall|k: int|
            0 <= k < lex_tokens(text).len() ==> #[trigger] lex_tokens(text)[k].1.start
                <= lex_tokens(text)[k].1.end <= vstd::utf8::encode_utf8(text).len(),
        forall|k: int|
            0 <= k < lex_tokens(text).len() - 1 ==> #[trigger] lex_tokens(text)[k].1.end
                <= lex_tokens(text)[k + 1].1.start,
        forall|k: int|
            0 <= k < lex_errors(text).len() ==> #[trigger] lex_errors(text)[k].0.start
                < lex_errors(text)[k].0.end <= vstd::utf8::encode_utf8(text).len(),
        forall|k: int|
            0 <= k < lex_errors(text).len() - 1 ==> #[trigger] lex_errors(text)[k].0.end
                <= lex_errors(text)[k + 1].0.start,
{
    lemma_lex_in_order(text, 0);
    lemma_byte_offset_bound(text, text.len() as int);
    let toks = lex_from(text, 0).0;
    let errs = lex_from(text, 0).1;
    let tr = token_ranges(toks);
    let n = vstd::utf8::encode_utf8(text).len();
    assert forall|k: int| 0 <= k < lex_tokens(text).len() implies #[trigger] lex_tokens(
        text,
    )[k].1.start <= lex_tokens(text)[k].1.end <= n by {
        assert(tr[k] == (toks[k].1, toks[k].2));
        assert(0 <= tr[k].0 <= tr[k].1 <= text.len());
        assert(lex_tokens(text)[k] == at_bytes(text, toks[k]));
        lemma_byte_offset_mono(text, toks[k].1, toks[k].2);
        lemma_byte_offset_mono(text, toks[k].2, text.len() as int);
        lemma_byte_offset_bound(text, toks[k].1);
    }
    assert forall|k: int| 0 <= k < lex_tokens(text).len() - 1 implies #[trigger] lex_tokens(
        text,
    )[k].1.end <= lex_tokens(text)[k + 1].1.start by {
        assert(tr[k] == (toks[k].1, toks[k].2));
        assert(tr[k + 1] == (toks[k + 1].1, toks[k + 1].2));
        assert(0 <= tr[k].0 <= tr[k].1 <= text.len());
        assert(tr[k].1 <= tr[k + 1].0);
        assert(0 <= tr[k + 1].0 <= tr[k + 1].1 <= text.len());
        assert(lex_tokens(text)[k] == at_bytes(text, toks[k]));
        assert(lex_tokens(text)[k + 1] == at_bytes(text, toks[k + 1]));
        lemma_byte_offset_mono(text, toks[k].2, toks[k + 1].1);
        lemma_byte_offset_mono(text, toks[k + 1].1, text.len() as int);
        lemma_byte_offset_bound(text, toks[k].2);
    }
    assert forall|k: int| 0 <= k < lex_errors(text).len() implies #[trigger] lex_errors(
        text,
    )[k].0.start < lex_errors(text)[k].0.end <= n by {
        lemma_byte_offset_mono(text, errs[k].0, errs[k].1);
        lemma_byte_offset_mono(text, errs[k].1, text.len() as int);
        lemma_byte_offset_bound(text, errs[k].0);
    }
    assert forall|k: int| 0 <= k < lex_errors(text).len() - 1 implies #[trigger] lex_errors(
        text,
    )[k].0.end <= lex_errors(text)[k + 1].0.start by {
        assert(0 <= errs[k].0 <= errs[k].1 <= text.len());
        assert(errs[k].1 <= errs[k + 1].0);
        assert(0 <= errs[k + 1].0 <= errs[k + 1].1 <= text.len());
        lemma_byte_offset_mono(text, errs[k].1, errs[k + 1].0);
        lemma_byte_offset_mono(text, errs[k + 1].0, text.len() as int);
        lemma_byte_offset_bound(text, errs[k].1);
    }
}

/// The `k`-th error of `e` is the invalid token `t[f[k]]`, holding its text
/// at its place, and `f` goes up: errors and the invalid tokens they come
/// with are paired one to one, in order.
pub open spec fn errors_paired(
    s: Seq<char>,
    t: Seq<(TokenV, int, int)>,
    e: Seq<(int, int)>,
    f: Seq<int>,
) -> bool {
    &&& f.len() == e.len()
    &&& forall|k: int|
        0 <= k < e.len() ==> 0 <= #[trigger] f[k] < t.len() && t[f[k]] == (
            TokenV::Invalid(s.subrange(e[k].0, e[k].1)),
            e[k].0,
            e[k].1,
        )
    &&& forall|a: int, b: int| 0 <= a < b < f.len() ==> #[trigger] f[a] < #[trigger] f[b]
}

proof fn lemma_errors_paired_from(s: Seq<char>, i: int)
    requires
        0 <= i <= s.len(),
    ensures
        exists|f: Seq<int>| errors_paired(s, lex_from(s, i).0, lex_from(s, i).1, f),
    decreases s.len() - i,
{
    lemma_skip_ws(s, i);
    let j = skip_ws(s, i);
    if i <= j < s.len() {
        lemma_best_upto(s, j, N_KINDS as int);
        match best(s, j) {
            Some((k, e)) => {
                lemma_errors_paired_from(s, e);
                let rest = lex_from(s, e);
                let g = choose|g: Seq<int>| errors_paired(s, rest.0, rest.1, g);
                let h = emit(s, k, j, e);
                let f = g.map_values(|x: int| x + h.len());
                let t = h + rest.0;
                assert forall|m: int| 0 <= m < rest.1.len() implies 0 <= #[trigger] f[m] < t.len()
                    && t[f[m]] == (
                    TokenV::Invalid(s.subrange(rest.1[m].0, rest.1[m].1)),
                    rest.1[m].0,
                    rest.1[m].1,
                ) by {
                    assert(0 <= g[m] < rest.0.len());
                    assert(t[f[m]] == rest.0[g[m]]);
                }
                assert forall|a: int, b: int| 0 <= a < b < f.len() implies #[trigger] f[a]
                    < #[trigger] f[b] by {
                    assert(g[a] < g[b]);
                }
                assert(errors_paired(s, t, rest.1, f));
                assert(lex_from(s, i).0 == t && lex_from(s, i).1 == rest.1);
            },
            None => {
                lemma_invalid_end(s, j);
                let e = invalid_end(s, j);
                if j < e <= s.len() {
                    lemma_errors_paired_from(s, e);
                    let rest = lex_from(s, e);
                    let g = choose|g: Seq<int>| errors_paired(s, rest.0, rest.1, g);
                    let head = seq![(TokenV::Invalid(s.subrange(j, e)), j, e)];
                    let t = head + rest.0;
                    let errs = seq![(j, e)] + rest.1;
                    let f = seq![0int] + g.map_values(|x: int| x + 1);
                    assert forall|m: int| 0 <= m < errs.len() implies 0 <= #[trigger] f[m] < t.len()
                        && t[f[m]] == (
                        TokenV::Invalid(s.subrange(errs[m].0, errs[m].1)),
                        errs[m].0,
                        errs[m].1,
                    ) by {
                        if m > 0 {
                            assert(errs[m] == rest.1[m - 1]);
                            assert(f[m] == g[m - 1] + 1);
                            assert(0 <= g[m - 1] < rest.0.len());
                            assert(t[f[m]] == rest.0[g[m - 1]]);
                        }
                    }
                    assert forall|a: int, b: int| 0 <= a < b < f.len() implies #[trigger] f[a]
                        < #[trigger] f[b] by {
                        if a > 0 {
                            assert(f[a] == g[a - 1] + 1 && f[b] == g[b - 1] + 1);
                            assert(g[a - 1] < g[b - 1]);
                        } else {
                            assert(f[b] == g[b - 1] + 1);
                            assert(0 <= g[b - 1]);
                        }
                    }
                    assert(errors_paired(s, t, errs, f));
                    assert(lex_from(s, i).0 == t && lex_from(s, i).1 == errs);
                }
            },
        }
    } else {
        assert(errors_paired(s, lex_from(s, i).0, lex_from(s, i).1, Seq::<int>::empty()));
    }
}

/// The `k`-th error of `text` comes with token `f[k]`, and `f` goes up: the
/// token is invalid and holds the unreadable piece, its byte span is the
/// error's, and the error's message is `Unexpected token '...'` quoting the
/// piece.
pub open spec fn errors_at_tokens(text: Seq<char>, f: Seq<int>) -> bool {
    &&& f.len() == lex_errors(text).len()
    &&& forall|a: int, b: int| 0 <= a < b < f.len() ==> #[trigger] f[a] < #[trigger] f[b]
    &&& forall|k: int|
        0 <= k < f.len() ==> {
            let e = lex_from(text, 0).1[k];
            &&& 0 <= #[trigger] f[k] < lex_tokens(text).len()
            &&& lex_tokens(text)[f[k]].0 == TokenV::Invalid(text.subrange(e.0, e.1))
            &&& lex_tokens(text)[f[k]].1 == lex_errors(text)[k].0
            &&& lex_errors(text)[k].1 == unexpected_msg(text.subrange(e.0, e.1))
        }
}

/// The errors of a text and the invalid tokens they come with are paired
/// one to one, in order.
pub proof fn lemma_errors_one_to_one(text: Seq<char>)
    ensures
        exists|f: Seq<int>| #[trigger] errors_at_tokens(text, f),
{
    lemma_errors_paired_from(text, 0);
    let t = lex_from(text, 0).0;
    let es = lex_from(text, 0).1;
    let f = choose|f: Seq<int>| errors_paired(text, t, es, f);
    assert forall|k: int| 0 <= k < f.len() implies {
        let e = es[k];
        &&& 0 <= #[trigger] f[k] < lex_tokens(text).len()
        &&& lex_tokens(text)[f[k]].0 == TokenV::Invalid(text.subrange(e.0, e.1))
        &&& lex_tokens(text)[f[k]].1 == lex_errors(text)[k].0
        &&& lex_errors(text)[k].1 == unexpected_msg(text.subrange(e.0, e.1))
    } by {
        assert(0 <= f[k] < t.len());
        assert(lex_tokens(text)[f[k]] == at_bytes(text, t[f[k]]));
        assert(lex_errors(text)[k] == error_at(text, es[k]));
    }
    assert(errors_at_tokens(text, f));
}


proof fn lemma_number_lexeme(k: Kind, t: Seq<char>)
    requires
        k == Kind::Double || k == Kind::Decimal || k == Kind::Integer,
        scan::matches(k, t),
    ensures
        t.len() > 0,
        t.last() != '.',
{
    if t.len() > 0 && t.last() == '.' {
        let st = scan::run(k, t.drop_last());
        assert(scan::run(k, t) == dfa::step(k, st, '.'));
        assert(!dfa::accepting(k, dfa::step(k, st, '.')));
    }
}

proof fn lemma_int_dot_lexeme(t: Seq<char>)
    requires
        scan::matches(Kind::IntegerWithDot, t),
    ensures
        t.len() >= 2,
        t.last() == '.',
        t[t.len() - 2] != '.',
{
    let k = Kind::IntegerWithDot;
    let st = scan::run(k, t.drop_last());
    assert(t.len() > 0);
    assert(scan::run(k, t) == dfa::step(k, st, t.last()));
    assert(st == 3 && t.last() == '.');
    let u = t.drop_last();
    assert(u.len() > 0);
    let st2 = scan::run(k, u.drop_last());
    assert(scan::run(k, u) == dfa::step(k, st2, u.last()));
    assert(u.last() != '.');
    assert(u.last() == t[t.len() - 2]);
}

proof fn lemma_stop_run(t: Seq<char>)
    ensures
        scan::run(Kind::Stop, t) == if t.len() == 0 {
            dfa::START
        } else if t.len() == 1 && t[0] == '.' {
            2u8
        } else {
            dfa::DEAD
        },
    decreases t.len(),
{
    if t.len() > 0 {
        lemma_stop_run(t.drop_last());
        dfa::lemma_dead_absorbs(Kind::Stop, t.last());
        if t.len() == 1 {
            assert(t.drop_last().len() == 0);
            assert(t.last() == t[0]);
        }
    }
}

proof fn lemma_stop_lexeme(t: Seq<char>)
    requires
        scan::matches(Kind::Stop, t),
    ensures
        t.len() == 1,
        t[0] == '.',
{
    lemma_stop_run(t);
}

/// The token is read from the text as it should be: a number holds the text
/// of its span, which does not end in `.`; a `.` token spans one `.`.
pub open spec fn number_stop_ok(s: Seq<char>, t: (TokenV, int, int)) -> bool {
    &&& (t.0 matches TokenV::Number(x) ==> 0 <= t.1 < t.2 <= s.len() && x == s.subrange(t.1, t.2)
        && s[t.2 - 1] != '.')
    &&& (t.0 is Stop ==> 0 <= t.1 && t.2 == t.1 + 1 && t.2 <= s.len() && s[t.1] == '.')
}

proof fn lemma_emit_numbers_and_stops(s: Seq<char>, k: Kind, j: int, e: int)
    requires
        0 <= j < e <= s.len(),
        scan::matches(k, s.subrange(j, e)),
    ensures
        forall|m: int| 0 <= m < emit(s, k, j, e).len() ==> number_stop_ok(s, #[trigger] emit(s, k, j, e)[m]),
{
    let t = s.subrange(j, e);
    let h = emit(s, k, j, e);
    if k == Kind::Double || k == Kind::Decimal || k == Kind::Integer {
        lemma_number_lexeme(k, t);
        assert(t.last() == s[e - 1]);
        assert(h =~= seq![(TokenV::Number(t), j, e)]);
    } else if k == Kind::IntegerWithDot {
        lemma_int_dot_lexeme(t);
        assert(t.last() == s[e - 1]);
        assert(t[t.len() - 2] == s[e - 2]);
        assert(h =~= seq![(TokenV::Number(s.subrange(j, e - 1)), j, e - 1), (TokenV::Stop, e - 1, e)]);
    } else if k == Kind::Stop {
        lemma_stop_lexeme(t);
        assert(t[0] == s[j]);
        assert(h =~= seq![(TokenV::Stop, j, e)]);
    } else if (k == Kind::PNameNs || k == Kind::PNameLn) && s[e - 1] == '.' {
        assert(h =~= seq![(pname(s, j, e - 1), j, e - 1), (TokenV::Stop, e - 1, e)]);
        assert(!(pname(s, j, e - 1) is Number) && !(pname(s, j, e - 1) is Stop));
    } else {
        assert(h.len() == 1);
        assert(!(h[0].0 is Number) && !(h[0].0 is Stop));
    }
}

/// Reading numbers and statement ends: every number token holds exactly
/// the text of its span, and that text never ends in `.`; every `.` token
/// spans exactly one `.` of the text. So an integer directly followed by
/// `.` is read as a number of its digits and a `.` that ends the statement.
pub proof fn lemma_lex_numbers_and_stops(s: Seq<char>, i: int)
    requires
        0 <= i <= s.len(),
    ensures
        forall|m: int|
            0 <= m < lex_from(s, i).0.len() ==> number_stop_ok(s, #[trigger] lex_from(s, i).0[m]),
    decreases s.len() - i,
{
    lemma_skip_ws(s, i);
    let j = skip_ws(s, i);
    if i <= j < s.len() {
        lemma_best_upto(s, j, N_KINDS as int);
        match best(s, j) {
            Some((k, e)) => {
                lemma_lex_numbers_and_stops(s, e);
                lemma_emit_numbers_and_stops(s, k, j, e);
                let h = emit(s, k, j, e);
                let rest = lex_from(s, e);
                assert(lex_from(s, i).0 == h + rest.0);
                assert forall|m: int| 0 <= m < (h + rest.0).len() implies number_stop_ok(
                    s,
                    #[trigger] (h + rest.0)[m],
                ) by {
                    if m < h.len() {
                        assert((h + rest.0)[m] == h[m]);
                    } else {
                        assert((h + rest.0)[m] == rest.0[m - h.len()]);
                    }
                }
            },
            None => {
                lemma_invalid_end(s, j);
                let e = invalid_end(s, j);
                lemma_lex_numbers_and_stops(s, e);
                let head = seq![(TokenV::Invalid(s.subrange(j, e)), j, e)];
                let rest = lex_from(s, e);
                assert(lex_from(s, i).0 == head + rest.0);
                assert forall|m: int| 0 <= m < (head + rest.0).len() implies number_stop_ok(
                    s,
                    #[trigger] (head + rest.0)[m],
                ) by {
                    if m > 0 {
                        assert((head + rest.0)[m] == rest.0[m - 1]);
                    }
                }
            },
        }
    }
}


proof fn lemma_first_char_live(k: Kind, t: Seq<char>)
    requires
        scan::matches(k, t),
        !dfa::accepting(k, dfa::START),
    ensures
        t.len() >= 1,
        dfa::step(k, dfa::START, t[0]) != dfa::DEAD,
{
    if t.len() >= 1 && dfa::step(k, dfa::START, t[0]) == dfa::DEAD {
        assert(t.subrange(0, 0) =~= Seq::<char>::empty());
        scan::lemma_run_step(k, t, 0, 0);
        scan::lemma_dead_stays(k, t, 0, 1, t.len() as int);
        assert(t.subrange(0, t.len() as int) =~= t);
        dfa::lemma_dead_absorbs(k, t[0]);
    }
}

proof fn lemma_delimited_lexeme(k: Kind, t: Seq<char>)
    requires
        k == Kind::IriRef || k == Kind::StrQuote || k == Kind::StrSingle || k == Kind::LangTag,
        scan::matches(k, t),
    ensures
        t.len() >= 2,
        k == Kind::IriRef ==> t[0] == '<' && t.last() == '>',
        k == Kind::StrQuote ==> t[0] == '"' && t.last() == '"',
        k == Kind::StrSingle ==> t[0] == '\'' && t.last() == '\'',
        k == Kind::LangTag ==> t[0] == '@',
{
    lemma_first_char_live(k, t);
    let st = scan::run(k, t.drop_last());
    assert(scan::run(k, t) == dfa::step(k, st, t.last()));
    if t.len() == 1 {
        assert(t.drop_last().len() == 0);
        assert(t.last() == t[0]);
    }
}

/// The token is read from the text as it should be: an IRI holds the text
/// between its `<` and `>`, a quoted string the text between its quotes,
/// and a language tag the text after its `@`.
pub open spec fn delimited_ok(s: Seq<char>, t: (TokenV, int, int)) -> bool {
    &&& (t.0 matches TokenV::IRIRef(x) ==> 0 <= t.1 && t.1 + 2 <= t.2 <= s.len() && s[t.1] == '<'
        && s[t.2 - 1] == '>' && x == s.subrange(t.1 + 1, t.2 - 1))
    &&& (t.0 matches TokenV::Str(x, style) ==> (style == StringStyle::Double || style
        == StringStyle::Single) ==> {
        let q = if style == StringStyle::Double {
            '"'
        } else {
            '\''
        };
        0 <= t.1 && t.1 + 2 <= t.2 <= s.len() && s[t.1] == q && s[t.2 - 1] == q && x
            == s.subrange(t.1 + 1, t.2 - 1)
    })
    &&& (t.0 matches TokenV::LangTag(x) ==> 0 <= t.1 && t.1 + 2 <= t.2 <= s.len() && s[t.1]
        == '@' && x == s.subrange(t.1 + 1, t.2))
}

proof fn lemma_emit_delimited(s: Seq<char>, k: Kind, j: int, e: int)
    requires
        0 <= j < e <= s.len(),
        scan::matches(k, s.subrange(j, e)),
    ensures
        forall|m: int| 0 <= m < emit(s, k, j, e).len() ==> delimited_ok(s, #[trigger] emit(s, k, j, e)[m]),
{
    let t = s.subrange(j, e);
    let h = emit(s, k, j, e);
    if k == Kind::IriRef || k == Kind::StrQuote || k == Kind::StrSingle || k == Kind::LangTag {
        lemma_delimited_lexeme(k, t);
        assert(t[0] == s[j] && t.last() == s[e - 1]);
        assert(h.len() == 1);
    } else if k == Kind::IntegerWithDot || ((k == Kind::PNameNs || k == Kind::PNameLn) && s[e
        - 1] == '.') {
        assert(h.len() == 2);
        assert(pname(s, j, e - 1) is PNameLN || pname(s, j, e - 1) is Invalid);
    } else {
        assert(h.len() == 1);
        assert(k == Kind::StrLongSingle || k == Kind::StrLongQuote || !(h[0].0 is Str));
        assert(!(h[0].0 is IRIRef) && !(h[0].0 is LangTag));
    }
}

/// Reading IRIs, strings and language tags: an IRI token holds exactly the
/// text between the `<` and `>` that delimit its span, a quoted string the
/// text between its quotes, and a language tag the text after the `@` that
/// starts its span.
pub proof fn lemma_lex_delimited(s: Seq<char>, i: int)
    requires
        0 <= i <= s.len(),
    ensures
        forall|m: int|
            0 <= m < lex_from(s, i).0.len() ==> delimited_ok(s, #[trigger] lex_from(s, i).0[m]),
    decreases s.len() - i,
{
    lemma_skip_ws(s, i);
    let j = skip_ws(s, i);
    if i <= j < s.len() {
        lemma_best_upto(s, j, N_KINDS as int);
        match best(s, j) {
            Some((k, e)) => {
                lemma_lex_delimited(s, e);
                lemma_emit_delimited(s, k, j, e);
                let h = emit(s, k, j, e);
                let rest = lex_from(s, e);
                assert(lex_from(s, i).0 == h + rest.0);
                assert forall|m: int| 0 <= m < (h + rest.0).len() implies delimited_ok(
                    s,
                    #[trigger] (h + rest.0)[m],
                ) by {
                    if m < h.len() {
                        assert((h + rest.0)[m] == h[m]);
                    } else {
                        assert((h + rest.0)[m] == rest.0[m - h.len()]);
                    }
                }
            },
            None => {
                lemma_invalid_end(s, j);
                let e = invalid_end(s, j);
                lemma_lex_delimited(s, e);
                let head = seq![(TokenV::Invalid(s.subrange(j, e)), j, e)];
                let rest = lex_from(s, e);
                assert(lex_from(s, i).0 == head + rest.0);
                assert forall|m: int| 0 <= m < (head + rest.0).len() implies delimited_ok(
                    s,
                    #[trigger] (head + rest.0)[m],
                ) by {
                    if m > 0 {
                        assert((head + rest.0)[m] == rest.0[m - 1]);
                    }
                }
            },
        }
    }
}

} // verus!
