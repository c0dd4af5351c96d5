//! Character classes of the Turtle grammar, as the tokenizer uses them.
use vstd::prelude::*;

verus! {

pub open spec fn is_digit(c: char) -> bool {
    '0' <= c <= '9'
}

pub open spec fn is_ascii_alpha(c: char) -> bool {
    ('a' <= c <= 'z') || ('A' <= c <= 'Z')
}

pub open spec fn is_ascii_alnum(c: char) -> bool {
    is_ascii_alpha(c) || is_digit(c)
}

pub open spec fn is_hex(c: char) -> bool {
    is_digit(c) || ('a' <= c <= 'f') || ('A' <= c <= 'F')
}

pub open spec fn is_sign(c: char) -> bool {
    c == '+' || c == '-'
}

/// The characters skipped between tokens.
pub open spec fn is_ws(c: char) -> bool {
    c == ' ' || c == '\t' || c == '\n' || c == '\u{0C}' || c == '\r'
}

/// PN_CHARS_BASE of the Turtle grammar.
pub open spec fn is_pn_chars_base(c: char) -> bool {
    ||| ('A' <= c <= 'Z')
    ||| ('a' <= c <= 'z')
    ||| ('\u{00C0}' <= c <= '\u{00D6}')
    ||| ('\u{00D8}' <= c <= '\u{00F6}')
    ||| ('\u{00F8}' <= c <= '\u{02FF}')
    ||| ('\u{0370}' <= c <= '\u{037D}')
    ||| ('\u{037F}' <= c <= '\u{1FFF}')
    ||| ('\u{200C}' <= c <= '\u{200D}')
    ||| ('\u{2070}' <= c <= '\u{218F}')
    ||| ('\u{2C00}' <= c <= '\u{2FEF}')
    ||| ('\u{3001}' <= c <= '\u{D7FF}')
    ||| ('\u{F900}' <= c <= '\u{FDCF}')
    ||| ('\u{FDF0}' <= c <= '\u{FFFD}')
    ||| ('\u{10000}' <= c <= '\u{EFFFF}')
}

/// PN_CHARS_U: PN_CHARS_BASE or '_'.
pub open spec fn is_pn_chars_u(c: char) -> bool {
    is_pn_chars_base(c) || c == '_'
}

/// PN_CHARS of the Turtle grammar.
pub open spec fn is_pn_chars(c: char) -> bool {
    ||| is_pn_chars_u(c)
    ||| c == '-'
    ||| is_digit(c)
    ||| c == '\u{00B7}'
    ||| ('\u{0300}' <= c <= '\u{036F}')
    ||| ('\u{203F}' <= c <= '\u{2040}')
}

/// A character allowed verbatim inside an IRIREF.
pub open spec fn is_iri_char(c: char) -> bool {
    &&& c > ' '
    &&& c != '<' && c != '>' && c != '"' && c != '{' && c != '}'
    &&& c != '|' && c != '^' && c != '`' && c != '\\'
}

/// A character that may follow a backslash in ECHAR.
pub open spec fn is_echar_char(c: char) -> bool {
    c == 't' || c == 'b' || c == 'n' || c == 'r' || c == 'f' || c == '"' || c == '\''
        || c == '\\'
}

/// A character that may follow a backslash in PN_LOCAL_ESC.
pub open spec fn is_local_esc_char(c: char) -> bool {
    ||| c == '_' || c == '~' || c == '.' || c == '-' || c == '!' || c == '$' || c == '&'
    ||| c == '(' || c == ')' || c == '*' || c == '+' || c == '"' || c == '\''
    ||| c == ';' || c == '=' || c == ',' || c == '/' || c == '?' || c == '#' || c == '@'
    ||| c == '%'
}

pub open spec fn is_newline(c: char) -> bool {
    c == '\n' || c == '\r'
}

pub fn digit(c: char) -> (r: bool)
    ensures
        r == is_digit(c),
{
    '0' <= c && c <= '9'
}

pub fn ascii_alpha(c: char) -> (r: bool)
    ensures
        r == is_ascii_alpha(c),
{
    ('a' <= c && c <= 'z') || ('A' <= c && c <= 'Z')
}

pub fn ascii_alnum(c: char) -> (r: bool)
    ensures
        r == is_ascii_alnum(c),
{
    ascii_alpha(c) || digit(c)
}

pub fn hex(c: char) -> (r: bool)
    ensures
        r == is_hex(c),
{
    digit(c) || ('a' <= c && c <= 'f') || ('A' <= c && c <= 'F')
}

pub fn sign(c: char) -> (r: bool)
    ensures
        r == is_sign(c),
{
    c == '+' || c == '-'
}

pub fn ws(c: char) -> (r: bool)
    ensures
        r == is_ws(c),
{
    c == ' ' || c == '\t' || c == '\n' || c == '\u{0C}' || c == '\r'
}

pub fn pn_chars_base(c: char) -> (r: bool)
    ensures
        r == is_pn_chars_base(c),
{
    ('A' <= c && c <= 'Z') || ('a' <= c && c <= 'z') || ('\u{00C0}' <= c && c <= '\u{00D6}')
        || ('\u{00D8}' <= c && c <= '\u{00F6}') || ('\u{00F8}' <= c && c <= '\u{02FF}') || (
    '\u{0370}' <= c && c <= '\u{037D}') || ('\u{037F}' <= c && c <= '\u{1FFF}') || ('\u{200C}'
        <= c && c <= '\u{200D}') || ('\u{2070}' <= c && c <= '\u{218F}') || ('\u{2C00}' <= c
        && c <= '\u{2FEF}') || ('\u{3001}' <= c && c <= '\u{D7FF}') || ('\u{F900}' <= c && c
        <= '\u{FDCF}') || ('\u{FDF0}' <= c && c <= '\u{FFFD}') || ('\u{10000}' <= c && c
        <= '\u{EFFFF}')
}

pub fn pn_chars_u(c: char) -> (r: bool)
    ensures
        r == is_pn_chars_u(c),
{
    pn_chars_base(c) || c == '_'
}

pub fn pn_chars(c: char) -> (r: bool)
    ensures
        r == is_pn_chars(c),
{
    pn_chars_u(c) || c == '-' || digit(c) || c == '\u{00B7}' || ('\u{0300}' <= c && c
        <= '\u{036F}') || ('\u{203F}' <= c && c <= '\u{2040}')
}

pub fn iri_char(c: char) -> (r: bool)
    ensures
        r == is_iri_char(c),
{
    c > ' ' && c != '<' && c != '>' && c != '"' && c != '{' && c != '}' && c != '|' && c != '^'
        && c != '`' && c != '\\'
}

pub fn echar_char(c: char) -> (r: bool)
    ensures
        r == is_echar_char(c),
{
    c == 't' || c == 'b' || c == 'n' || c == 'r' || c == 'f' || c == '"' || c == '\'' || c
        == '\\'
}

pub fn local_esc_char(c: char) -> (r: bool)
    ensures
        r == is_local_esc_char(c),
{
    c == '_' || c == '~' || c == '.' || c == '-' || c == '!' || c == '$' || c == '&' || c == '('
        || c == ')' || c == '*' || c == '+' || c == '"' || c == '\'' || c == ';' || c == '=' || c
        == ',' || c == '/' || c == '?' || c == '#' || c == '@' || c == '%'
}

pub fn newline(c: char) -> (r: bool)
    ensures
        r == is_newline(c),
{
    c == '\n' || c == '\r'
}

} // verus!
