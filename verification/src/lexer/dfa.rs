//! One deterministic automaton per Turtle terminal.
//!
//! Each terminal's regular expression is given by a deterministic finite
//! automaton over characters: state `DEAD` rejects and absorbs, `START` is the
//! initial state, and a text matches the terminal when running the automaton
//! over it ends in an accepting state.
use crate::chars::{
    ascii_alnum, ascii_alpha, digit, echar_char, hex, iri_char, is_ascii_alnum, is_ascii_alpha,
    is_digit, is_echar_char, is_hex, is_iri_char, is_local_esc_char, is_newline, is_pn_chars,
    is_pn_chars_base, is_pn_chars_u, is_sign, local_esc_char, newline, pn_chars, pn_chars_base,
    pn_chars_u, sign,
};
use vstd::prelude::*;

verus! {

pub const DEAD: u8 = 0;

pub const START: u8 = 1;

/// The terminals of the Turtle tokenizer, in priority order: when two
/// terminals match equally long texts, the earlier one wins.
#[derive(Clone, Copy, Debug, PartialEq, Eq, Structural)]
pub enum Kind {
    /// `@prefix`
    Prefix,
    /// `prefix`, ASCII case-insensitive
    SqPrefix,
    /// `@base`
    Base,
    /// `base`, ASCII case-insensitive
    SqBase,
    /// `[`
    SqOpen,
    /// `]`
    SqClose,
    /// `(`
    BraceOpen,
    /// `)`
    BraceClose,
    /// `a`
    TypeTag,
    /// `;`
    Semi,
    /// `,`
    Comma,
    /// `.`
    Stop,
    /// `^^`
    DataTag,
    /// `true`
    True,
    /// `false`
    False,
    /// `_:` (PN_CHARS_U | [0-9]) ((PN_CHARS | `.`)* PN_CHARS)?
    BlankNodeLabel,
    /// [+-]? ([0-9]+ `.` [0-9]* EXP | `.` [0-9]+ EXP | [0-9]+ EXP), EXP = [eE] [+-]? [0-9]+
    Double,
    /// [+-]? [0-9]* `.` [0-9]+
    Decimal,
    /// [+-]? [0-9]+
    Integer,
    /// [+-]? [0-9]+ `.`
    IntegerWithDot,
    /// `@` [a-zA-Z]+ (`-` [a-zA-Z0-9]+)*
    LangTag,
    /// `"` ([^"\\\n\r] | ECHAR | UCHAR)* `"`
    StrQuote,
    /// `'` ([^'\\\n\r] | ECHAR | UCHAR)* `'`
    StrSingle,
    /// `'''` ((`'` | `''`)? ([^'\\] | ECHAR | UCHAR))* `'''`
    StrLongSingle,
    /// `"""` ((`"` | `""`)? ([^"\\] | ECHAR | UCHAR))* `"""`
    StrLongQuote,
    /// `<` ([^#x00-#x20<>"{}|^`\\] | UCHAR)* `>`
    IriRef,
    /// PN_PREFIX? `:`, PN_PREFIX = PN_CHARS_BASE ((PN_CHARS | `.`)* PN_CHARS)?
    PNameNs,
    /// PN_PREFIX? `:` (PN_CHARS_U | `:` | [0-9] | PLX) (`.` | PN_CHARS | `:` | PLX)*, PLX = `%` HEX HEX | `\\` ESC
    PNameLn,
    /// `#` [^\r\n]*
    Comment,
}

pub const N_KINDS: usize = 29;

/// The terminal at position `i` of the priority order.
pub open spec fn kind_at(i: int) -> Kind {
    if i <= 0 {
        Kind::Prefix
    } else if i == 1 {
        Kind::SqPrefix
    } else if i == 2 {
        Kind::Base
    } else if i == 3 {
        Kind::SqBase
    } else if i == 4 {
        Kind::SqOpen
    } else if i == 5 {
        Kind::SqClose
    } else if i == 6 {
        Kind::BraceOpen
    } else if i == 7 {
        Kind::BraceClose
    } else if i == 8 {
        Kind::TypeTag
    } else if i == 9 {
        Kind::Semi
    } else if i == 10 {
        Kind::Comma
    } else if i == 11 {
        Kind::Stop
    } else if i == 12 {
        Kind::DataTag
    } else if i == 13 {
        Kind::True
    } else if i == 14 {
        Kind::False
    } else if i == 15 {
        Kind::BlankNodeLabel
    } else if i == 16 {
        Kind::Double
    } else if i == 17 {
        Kind::Decimal
    } else if i == 18 {
        Kind::Integer
    } else if i == 19 {
        Kind::IntegerWithDot
    } else if i == 20 {
        Kind::LangTag
    } else if i == 21 {
        Kind::StrQuote
    } else if i == 22 {
        Kind::StrSingle
    } else if i == 23 {
        Kind::StrLongSingle
    } else if i == 24 {
        Kind::StrLongQuote
    } else if i == 25 {
        Kind::IriRef
    } else if i == 26 {
        Kind::PNameNs
    } else if i == 27 {
        Kind::PNameLn
    } else {
        Kind::Comment
    }
}

pub fn kind_at_exec(i: usize) -> (k: Kind)
    requires
        i < N_KINDS,
    ensures
        k == kind_at(i as int),
{
    if i == 0 {
        Kind::Prefix
    } else if i == 1 {
        Kind::SqPrefix
    } else if i == 2 {
        Kind::Base
    } else if i == 3 {
        Kind::SqBase
    } else if i == 4 {
        Kind::SqOpen
    } else if i == 5 {
        Kind::SqClose
    } else if i == 6 {
        Kind::BraceOpen
    } else if i == 7 {
        Kind::BraceClose
    } else if i == 8 {
        Kind::TypeTag
    } else if i == 9 {
        Kind::Semi
    } else if i == 10 {
        Kind::Comma
    } else if i == 11 {
        Kind::Stop
    } else if i == 12 {
        Kind::DataTag
    } else if i == 13 {
        Kind::True
    } else if i == 14 {
        Kind::False
    } else if i == 15 {
        Kind::BlankNodeLabel
    } else if i == 16 {
        Kind::Double
    } else if i == 17 {
        Kind::Decimal
    } else if i == 18 {
        Kind::Integer
    } else if i == 19 {
        Kind::IntegerWithDot
    } else if i == 20 {
        Kind::LangTag
    } else if i == 21 {
        Kind::StrQuote
    } else if i == 22 {
        Kind::StrSingle
    } else if i == 23 {
        Kind::StrLongSingle
    } else if i == 24 {
        Kind::StrLongQuote
    } else if i == 25 {
        Kind::IriRef
    } else if i == 26 {
        Kind::PNameNs
    } else if i == 27 {
        Kind::PNameLn
    } else {
        Kind::Comment
    }
}

/// The literal text of a keyword terminal, with its upper-case variant
/// (equal to it for the case-sensitive keywords).
pub open spec fn keyword(k: Kind) -> (Seq<char>, Seq<char>) {
    match k {
        Kind::Prefix => (seq!['@', 'p', 'r', 'e', 'f', 'i', 'x'], seq!['@', 'p', 'r', 'e', 'f', 'i', 'x']),
        Kind::SqPrefix => (seq!['p', 'r', 'e', 'f', 'i', 'x'], seq!['P', 'R', 'E', 'F', 'I', 'X']),
        Kind::Base => (seq!['@', 'b', 'a', 's', 'e'], seq!['@', 'b', 'a', 's', 'e']),
        Kind::SqBase => (seq!['b', 'a', 's', 'e'], seq!['B', 'A', 'S', 'E']),
        Kind::SqOpen => (seq!['['], seq!['[']),
        Kind::SqClose => (seq![']'], seq![']']),
        Kind::BraceOpen => (seq!['('], seq!['(']),
        Kind::BraceClose => (seq![')'], seq![')']),
        Kind::TypeTag => (seq!['a'], seq!['a']),
        Kind::Semi => (seq![';'], seq![';']),
        Kind::Comma => (seq![','], seq![',']),
        Kind::Stop => (seq!['.'], seq!['.']),
        Kind::DataTag => (seq!['^', '^'], seq!['^', '^']),
        Kind::True => (seq!['t', 'r', 'u', 'e'], seq!['t', 'r', 'u', 'e']),
        Kind::False => (seq!['f', 'a', 'l', 's', 'e'], seq!['f', 'a', 'l', 's', 'e']),
        _ => (Seq::empty(), Seq::empty()),
    }
}

pub open spec fn is_keyword(k: Kind) -> bool {
    keyword(k).0.len() > 0
}

/// The length of the keyword and its expected characters at position `i`.
fn keyword_exec(k: Kind, i: usize) -> (r: (usize, char, char))
    requires
        is_keyword(k),
    ensures
        r.0 == keyword(k).0.len(),
        i < r.0 ==> r.1 == keyword(k).0[i as int] && r.2 == keyword(k).1[i as int],
{
    match k {
        Kind::Prefix => match i {
            0 => (7, '@', '@'),
            1 => (7, 'p', 'p'),
            2 => (7, 'r', 'r'),
            3 => (7, 'e', 'e'),
            4 => (7, 'f', 'f'),
            5 => (7, 'i', 'i'),
            6 => (7, 'x', 'x'),
            _ => (7, ' ', ' '),
        },
        Kind::SqPrefix => match i {
            0 => (6, 'p', 'P'),
            1 => (6, 'r', 'R'),
            2 => (6, 'e', 'E'),
            3 => (6, 'f', 'F'),
            4 => (6, 'i', 'I'),
            5 => (6, 'x', 'X'),
            _ => (6, ' ', ' '),
        },
        Kind::Base => match i {
            0 => (5, '@', '@'),
            1 => (5, 'b', 'b'),
            2 => (5, 'a', 'a'),
            3 => (5, 's', 's'),
            4 => (5, 'e', 'e'),
            _ => (5, ' ', ' '),
        },
        Kind::SqBase => match i {
            0 => (4, 'b', 'B'),
            1 => (4, 'a', 'A'),
            2 => (4, 's', 'S'),
            3 => (4, 'e', 'E'),
            _ => (4, ' ', ' '),
        },
        Kind::SqOpen => match i {
            0 => (1, '[', '['),
            _ => (1, ' ', ' '),
        },
        Kind::SqClose => match i {
            0 => (1, ']', ']'),
            _ => (1, ' ', ' '),
        },
        Kind::BraceOpen => match i {
            0 => (1, '(', '('),
            _ => (1, ' ', ' '),
        },
        Kind::BraceClose => match i {
            0 => (1, ')', ')'),
            _ => (1, ' ', ' '),
        },
        Kind::TypeTag => match i {
            0 => (1, 'a', 'a'),
            _ => (1, ' ', ' '),
        },
        Kind::Semi => match i {
            0 => (1, ';', ';'),
            _ => (1, ' ', ' '),
        },
        Kind::Comma => match i {
            0 => (1, ',', ','),
            _ => (1, ' ', ' '),
        },
        Kind::Stop => match i {
            0 => (1, '.', '.'),
            _ => (1, ' ', ' '),
        },
        Kind::DataTag => match i {
            0 => (2, '^', '^'),
            1 => (2, '^', '^'),
            _ => (2, ' ', ' '),
        },
        Kind::True => match i {
            0 => (4, 't', 't'),
            1 => (4, 'r', 'r'),
            2 => (4, 'u', 'u'),
            3 => (4, 'e', 'e'),
            _ => (4, ' ', ' '),
        },
        Kind::False => match i {
            0 => (5, 'f', 'f'),
            1 => (5, 'a', 'a'),
            2 => (5, 'l', 'l'),
            3 => (5, 's', 's'),
            4 => (5, 'e', 'e'),
            _ => (5, ' ', ' '),
        },
        _ => (0, ' ', ' '),
    }
}

/// The automaton of `_:` (PN_CHARS_U | [0-9]) ((PN_CHARS | `.`)* PN_CHARS)?.
pub open spec fn blank_node_label_step(st: u8, c: char) -> u8 {
    match st {
        1 => if c == '_' {
                2
            } else {
                DEAD
            },
        2 => if c == ':' {
                3
            } else {
                DEAD
            },
        3 => if is_pn_chars_u(c) || is_digit(c) {
                4
            } else {
                DEAD
            },
        4 => if is_pn_chars(c) {
                4
            } else if c == '.' {
                5
            } else {
                DEAD
            },
        5 => if is_pn_chars(c) {
                4
            } else if c == '.' {
                5
            } else {
                DEAD
            },
        _ => DEAD,
    }
}

fn blank_node_label_step_exec(st: u8, c: char) -> (r: u8)
    ensures
        r == blank_node_label_step(st, c),
{
    match st {
        1 => if c == '_' {
                2
            } else {
                DEAD
            },
        2 => if c == ':' {
                3
            } else {
                DEAD
            },
        3 => if pn_chars_u(c) || digit(c) {
                4
            } else {
                DEAD
            },
        4 => if pn_chars(c) {
                4
            } else if c == '.' {
                5
            } else {
                DEAD
            },
        5 => if pn_chars(c) {
                4
            } else if c == '.' {
                5
            } else {
                DEAD
            },
        _ => DEAD,
    }
}

/// The automaton of [+-]? ([0-9]+ `.` [0-9]* EXP | `.` [0-9]+ EXP | [0-9]+ EXP), EXP = [eE] [+-]? [0-9]+.
pub open spec fn double_step(st: u8, c: char) -> u8 {
    match st {
        1 => if is_sign(c) {
                2
            } else if is_digit(c) {
                3
            } else if c == '.' {
                5
            } else {
                DEAD
            },
        2 => if is_digit(c) {
                3
            } else if c == '.' {
                5
            } else {
                DEAD
            },
        3 => if is_digit(c) {
                3
            } else if c == '.' {
                4
            } else if c == 'e' || c == 'E' {
                7
            } else {
                DEAD
            },
        4 => if is_digit(c) {
                4
            } else if c == 'e' || c == 'E' {
                7
            } else {
                DEAD
            },
        5 => if is_digit(c) {
                6
            } else {
                DEAD
            },
        6 => if is_digit(c) {
                6
            } else if c == 'e' || c == 'E' {
                7
            } else {
                DEAD
            },
        7 => if is_sign(c) {
                8
            } else if is_digit(c) {
                9
            } else {
                DEAD
            },
        8 => if is_digit(c) {
                9
            } else {
                DEAD
            },
        9 => if is_digit(c) {
                9
            } else {
                DEAD
            },
        _ => DEAD,
    }
}

fn double_step_exec(st: u8, c: char) -> (r: u8)
    ensures
        r == double_step(st, c),
{
    match st {
        1 => if sign(c) {
                2
            } else if digit(c) {
                3
            } else if c == '.' {
                5
            } else {
                DEAD
            },
        2 => if digit(c) {
                3
            } else if c == '.' {
                5
            } else {
                DEAD
            },
        3 => if digit(c) {
                3
            } else if c == '.' {
                4
            } else if c == 'e' || c == 'E' {
                7
            } else {
                DEAD
            },
        4 => if digit(c) {
                4
            } else if c == 'e' || c == 'E' {
                7
            } else {
                DEAD
            },
        5 => if digit(c) {
                6
            } else {
                DEAD
            },
        6 => if digit(c) {
                6
            } else if c == 'e' || c == 'E' {
                7
            } else {
                DEAD
            },
        7 => if sign(c) {
                8
            } else if digit(c) {
                9
            } else {
                DEAD
            },
        8 => if digit(c) {
                9
            } else {
                DEAD
            },
        9 => if digit(c) {
                9
            } else {
                DEAD
            },
        _ => DEAD,
    }
}

/// The automaton of [+-]? [0-9]* `.` [0-9]+.
pub open spec fn decimal_step(st: u8, c: char) -> u8 {
    match st {
        1 => if is_sign(c) {
                2
            } else if is_digit(c) {
                2
            } else if c == '.' {
                3
            } else {
                DEAD
            },
        2 => if is_digit(c) {
                2
            } else if c == '.' {
                3
            } else {
                DEAD
            },
        3 => if is_digit(c) {
                4
            } else {
                DEAD
            },
        4 => if is_digit(c) {
                4
            } else {
                DEAD
            },
        _ => DEAD,
    }
}

fn decimal_step_exec(st: u8, c: char) -> (r: u8)
    ensures
        r == decimal_step(st, c),
{
    match st {
        1 => if sign(c) {
                2
            } else if digit(c) {
                2
            } else if c == '.' {
                3
            } else {
                DEAD
            },
        2 => if digit(c) {
                2
            } else if c == '.' {
                3
            } else {
                DEAD
            },
        3 => if digit(c) {
                4
            } else {
                DEAD
            },
        4 => if digit(c) {
                4
            } else {
                DEAD
            },
        _ => DEAD,
    }
}

/// The automaton of [+-]? [0-9]+.
pub open spec fn integer_step(st: u8, c: char) -> u8 {
    match st {
        1 => if is_sign(c) {
                2
            } else if is_digit(c) {
                3
            } else {
                DEAD
            },
        2 => if is_digit(c) {
                3
            } else {
                DEAD
            },
        3 => if is_digit(c) {
                3
            } else {
                DEAD
            },
        _ => DEAD,
    }
}

fn integer_step_exec(st: u8, c: char) -> (r: u8)
    ensures
        r == integer_step(st, c),
{
    match st {
        1 => if sign(c) {
                2
            } else if digit(c) {
                3
            } else {
                DEAD
            },
        2 => if digit(c) {
                3
            } else {
                DEAD
            },
        3 => if digit(c) {
                3
            } else {
                DEAD
            },
        _ => DEAD,
    }
}

/// The automaton of [+-]? [0-9]+ `.`.
pub open spec fn integer_with_dot_step(st: u8, c: char) -> u8 {
    match st {
        1 => if is_sign(c) {
                2
            } else if is_digit(c) {
                3
            } else {
                DEAD
            },
        2 => if is_digit(c) {
                3
            } else {
                DEAD
            },
        3 => if is_digit(c) {
                3
            } else if c == '.' {
                4
            } else {
                DEAD
            },
        _ => DEAD,
    }
}

fn integer_with_dot_step_exec(st: u8, c: char) -> (r: u8)
    ensures
        r == integer_with_dot_step(st, c),
{
    match st {
        1 => if sign(c) {
                2
            } else if digit(c) {
                3
            } else {
                DEAD
            },
        2 => if digit(c) {
                3
            } else {
                DEAD
            },
        3 => if digit(c) {
                3
            } else if c == '.' {
                4
            } else {
                DEAD
            },
        _ => DEAD,
    }
}

/// The automaton of `@` [a-zA-Z]+ (`-` [a-zA-Z0-9]+)*.
pub open spec fn lang_tag_step(st: u8, c: char) -> u8 {
    match st {
        1 => if c == '@' {
                2
            } else {
                DEAD
            },
        2 => if is_ascii_alpha(c) {
                3
            } else {
                DEAD
            },
        3 => if is_ascii_alpha(c) {
                3
            } else if c == '-' {
                4
            } else {
                DEAD
            },
        4 => if is_ascii_alnum(c) {
                5
            } else {
                DEAD
            },
        5 => if is_ascii_alnum(c) {
                5
            } else if c == '-' {
                4
            } else {
                DEAD
            },
        _ => DEAD,
    }
}

fn lang_tag_step_exec(st: u8, c: char) -> (r: u8)
    ensures
        r == lang_tag_step(st, c),
{
    match st {
        1 => if c == '@' {
                2
            } else {
                DEAD
            },
        2 => if ascii_alpha(c) {
                3
            } else {
                DEAD
            },
        3 => if ascii_alpha(c) {
                3
            } else if c == '-' {
                4
            } else {
                DEAD
            },
        4 => if ascii_alnum(c) {
                5
            } else {
                DEAD
            },
        5 => if ascii_alnum(c) {
                5
            } else if c == '-' {
                4
            } else {
                DEAD
            },
        _ => DEAD,
    }
}

/// The automaton of `"` ([^"\\\n\r] | ECHAR | UCHAR)* `"`.
pub open spec fn str_quote_step(st: u8, c: char) -> u8 {
    match st {
        1 => if c == '"' {
                2
            } else {
                DEAD
            },
        2 => if c == '"' {
                3
            } else if c == '\\' {
                4
            } else if c != '"' && c != '\\' && !is_newline(c) {
                2
            } else {
                DEAD
            },
        4 => if is_echar_char(c) {
                2
            } else if c == 'u' {
                5
            } else if c == 'U' {
                9
            } else {
                DEAD
            },
        5 => if is_hex(c) {
                6
            } else {
                DEAD
            },
        6 => if is_hex(c) {
                7
            } else {
                DEAD
            },
        7 => if is_hex(c) {
                8
            } else {
                DEAD
            },
        8 => if is_hex(c) {
                2
            } else {
                DEAD
            },
        9 => if is_hex(c) {
                10
            } else {
                DEAD
            },
        10 => if is_hex(c) {
                11
            } else {
                DEAD
            },
        11 => if is_hex(c) {
                12
            } else {
                DEAD
            },
        12 => if is_hex(c) {
                13
            } else {
                DEAD
            },
        13 => if is_hex(c) {
                14
            } else {
                DEAD
            },
        14 => if is_hex(c) {
                15
            } else {
                DEAD
            },
        15 => if is_hex(c) {
                16
            } else {
                DEAD
            },
        16 => if is_hex(c) {
                2
            } else {
                DEAD
            },
        _ => DEAD,
    }
}

fn str_quote_step_exec(st: u8, c: char) -> (r: u8)
    ensures
        r == str_quote_step(st, c),
{
    match st {
        1 => if c == '"' {
                2
            } else {
                DEAD
            },
        2 => if c == '"' {
                3
            } else if c == '\\' {
                4
            } else if c != '"' && c != '\\' && !newline(c) {
                2
            } else {
                DEAD
            },
        4 => if echar_char(c) {
                2
            } else if c == 'u' {
                5
            } else if c == 'U' {
                9
            } else {
                DEAD
            },
        5 => if hex(c) {
                6
            } else {
                DEAD
            },
        6 => if hex(c) {
                7
            } else {
                DEAD
            },
        7 => if hex(c) {
                8
            } else {
                DEAD
            },
        8 => if hex(c) {
                2
            } else {
                DEAD
            },
        9 => if hex(c) {
                10
            } else {
                DEAD
            },
        10 => if hex(c) {
                11
            } else {
                DEAD
            },
        11 => if hex(c) {
                12
            } else {
                DEAD
            },
        12 => if hex(c) {
                13
            } else {
                DEAD
            },
        13 => if hex(c) {
                14
            } else {
                DEAD
            },
        14 => if hex(c) {
                15
            } else {
                DEAD
            },
        15 => if hex(c) {
                16
            } else {
                DEAD
            },
        16 => if hex(c) {
                2
            } else {
                DEAD
            },
        _ => DEAD,
    }
}

/// The automaton of `'` ([^'\\\n\r] | ECHAR | UCHAR)* `'`.
pub open spec fn str_single_step(st: u8, c: char) -> u8 {
    match st {
        1 => if c == '\'' {
                2
            } else {
                DEAD
            },
        2 => if c == '\'' {
                3
            } else if c == '\\' {
                4
            } else if c != '\'' && c != '\\' && !is_newline(c) {
                2
            } else {
                DEAD
            },
        4 => if is_echar_char(c) {
                2
            } else if c == 'u' {
                5
            } else if c == 'U' {
                9
            } else {
                DEAD
            },
        5 => if is_hex(c) {
                6
            } else {
                DEAD
            },
        6 => if is_hex(c) {
                7
            } else {
                DEAD
            },
        7 => if is_hex(c) {
                8
            } else {
                DEAD
            },
        8 => if is_hex(c) {
                2
            } else {
                DEAD
            },
        9 => if is_hex(c) {
                10
            } else {
                DEAD
            },
        10 => if is_hex(c) {
                11
            } else {
                DEAD
            },
        11 => if is_hex(c) {
                12
            } else {
                DEAD
            },
        12 => if is_hex(c) {
                13
            } else {
                DEAD
            },
        13 => if is_hex(c) {
                14
            } else {
                DEAD
            },
        14 => if is_hex(c) {
                15
            } else {
                DEAD
            },
        15 => if is_hex(c) {
                16
            } else {
                DEAD
            },
        16 => if is_hex(c) {
                2
            } else {
                DEAD
            },
        _ => DEAD,
    }
}

fn str_single_step_exec(st: u8, c: char) -> (r: u8)
    ensures
        r == str_single_step(st, c),
{
    match st {
        1 => if c == '\'' {
                2
            } else {
                DEAD
            },
        2 => if c == '\'' {
                3
            } else if c == '\\' {
                4
            } else if c != '\'' && c != '\\' && !newline(c) {
                2
            } else {
                DEAD
            },
        4 => if echar_char(c) {
                2
            } else if c == 'u' {
                5
            } else if c == 'U' {
                9
            } else {
                DEAD
            },
        5 => if hex(c) {
                6
            } else {
                DEAD
            },
        6 => if hex(c) {
                7
            } else {
                DEAD
            },
        7 => if hex(c) {
                8
            } else {
                DEAD
            },
        8 => if hex(c) {
                2
            } else {
                DEAD
            },
        9 => if hex(c) {
                10
            } else {
                DEAD
            },
        10 => if hex(c) {
                11
            } else {
                DEAD
            },
        11 => if hex(c) {
                12
            } else {
                DEAD
            },
        12 => if hex(c) {
                13
            } else {
                DEAD
            },
        13 => if hex(c) {
                14
            } else {
                DEAD
            },
        14 => if hex(c) {
                15
            } else {
                DEAD
            },
        15 => if hex(c) {
                16
            } else {
                DEAD
            },
        16 => if hex(c) {
                2
            } else {
                DEAD
            },
        _ => DEAD,
    }
}

/// The automaton of `'''` ((`'` | `''`)? ([^'\\] | ECHAR | UCHAR))* `'''`.
pub open spec fn str_long_single_step(st: u8, c: char) -> u8 {
    match st {
        1 => if c == '\'' {
                2
            } else {
                DEAD
            },
        2 => if c == '\'' {
                3
            } else {
                DEAD
            },
        3 => if c == '\'' {
                4
            } else {
                DEAD
            },
        4 => if c == '\'' {
                5
            } else if c == '\\' {
                8
            } else if c != '\'' && c != '\\' {
                4
            } else {
                DEAD
            },
        5 => if c == '\'' {
                6
            } else if c == '\\' {
                8
            } else if c != '\'' && c != '\\' {
                4
            } else {
                DEAD
            },
        6 => if c == '\'' {
                7
            } else if c == '\\' {
                8
            } else if c != '\'' && c != '\\' {
                4
            } else {
                DEAD
            },
        8 => if is_echar_char(c) {
                4
            } else if c == 'u' {
                9
            } else if c == 'U' {
                13
            } else {
                DEAD
            },
        9 => if is_hex(c) {
                10
            } else {
                DEAD
            },
        10 => if is_hex(c) {
                11
            } else {
                DEAD
            },
        11 => if is_hex(c) {
                12
            } else {
                DEAD
            },
        12 => if is_hex(c) {
                4
            } else {
                DEAD
            },
        13 => if is_hex(c) {
                14
            } else {
                DEAD
            },
        14 => if is_hex(c) {
                15
            } else {
                DEAD
            },
        15 => if is_hex(c) {
                16
            } else {
                DEAD
            },
        16 => if is_hex(c) {
                17
            } else {
                DEAD
            },
        17 => if is_hex(c) {
                18
            } else {
                DEAD
            },
        18 => if is_hex(c) {
                19
            } else {
                DEAD
            },
        19 => if is_hex(c) {
                20
            } else {
                DEAD
            },
        20 => if is_hex(c) {
                4
            } else {
                DEAD
            },
        _ => DEAD,
    }
}

fn str_long_single_step_exec(st: u8, c: char) -> (r: u8)
    ensures
        r == str_long_single_step(st, c),
{
    match st {
        1 => if c == '\'' {
                2
            } else {
                DEAD
            },
        2 => if c == '\'' {
                3
            } else {
                DEAD
            },
        3 => if c == '\'' {
                4
            } else {
                DEAD
            },
        4 => if c == '\'' {
                5
            } else if c == '\\' {
                8
            } else if c != '\'' && c != '\\' {
                4
            } else {
                DEAD
            },
        5 => if c == '\'' {
                6
            } else if c == '\\' {
                8
            } else if c != '\'' && c != '\\' {
                4
            } else {
                DEAD
            },
        6 => if c == '\'' {
                7
            } else if c == '\\' {
                8
            } else if c != '\'' && c != '\\' {
                4
            } else {
                DEAD
            },
        8 => if echar_char(c) {
                4
            } else if c == 'u' {
                9
            } else if c == 'U' {
                13
            } else {
                DEAD
            },
        9 => if hex(c) {
                10
            } else {
                DEAD
            },
        10 => if hex(c) {
                11
            } else {
                DEAD
            },
        11 => if hex(c) {
                12
            } else {
                DEAD
            },
        12 => if hex(c) {
                4
            } else {
                DEAD
            },
        13 => if hex(c) {
                14
            } else {
                DEAD
            },
        14 => if hex(c) {
                15
            } else {
                DEAD
            },
        15 => if hex(c) {
                16
            } else {
                DEAD
            },
        16 => if hex(c) {
                17
            } else {
                DEAD
            },
        17 => if hex(c) {
                18
            } else {
                DEAD
            },
        18 => if hex(c) {
                19
            } else {
                DEAD
            },
        19 => if hex(c) {
                20
            } else {
                DEAD
            },
        20 => if hex(c) {
                4
            } else {
                DEAD
            },
        _ => DEAD,
    }
}

/// The automaton of `"""` ((`"` | `""`)? ([^"\\] | ECHAR | UCHAR))* `"""`.
pub open spec fn str_long_quote_step(st: u8, c: char) -> u8 {
    match st {
        1 => if c == '"' {
                2
            } else {
                DEAD
            },
        2 => if c == '"' {
                3
            } else {
                DEAD
            },
        3 => if c == '"' {
                4
            } else {
                DEAD
            },
        4 => if c == '"' {
                5
            } else if c == '\\' {
                8
            } else if c != '"' && c != '\\' {
                4
            } else {
                DEAD
            },
        5 => if c == '"' {
                6
            } else if c == '\\' {
                8
            } else if c != '"' && c != '\\' {
                4
            } else {
                DEAD
            },
        6 => if c == '"' {
                7
            } else if c == '\\' {
                8
            } else if c != '"' && c != '\\' {
                4
            } else {
                DEAD
            },
        8 => if is_echar_char(c) {
                4
            } else if c == 'u' {
                9
            } else if c == 'U' {
                13
            } else {
                DEAD
            },
        9 => if is_hex(c) {
                10
            } else {
                DEAD
            },
        10 => if is_hex(c) {
                11
            } else {
                DEAD
            },
        11 => if is_hex(c) {
                12
            } else {
                DEAD
            },
        12 => if is_hex(c) {
                4
            } else {
                DEAD
            },
        13 => if is_hex(c) {
                14
            } else {
                DEAD
            },
        14 => if is_hex(c) {
                15
            } else {
                DEAD
            },
        15 => if is_hex(c) {
                16
            } else {
                DEAD
            },
        16 => if is_hex(c) {
                17
            } else {
                DEAD
            },
        17 => if is_hex(c) {
                18
            } else {
                DEAD
            },
        18 => if is_hex(c) {
                19
            } else {
                DEAD
            },
        19 => if is_hex(c) {
                20
            } else {
                DEAD
            },
        20 => if is_hex(c) {
                4
            } else {
                DEAD
            },
        _ => DEAD,
    }
}

fn str_long_quote_step_exec(st: u8, c: char) -> (r: u8)
    ensures
        r == str_long_quote_step(st, c),
{
    match st {
        1 => if c == '"' {
                2
            } else {
                DEAD
            },
        2 => if c == '"' {
                3
            } else {
                DEAD
            },
        3 => if c == '"' {
                4
            } else {
                DEAD
            },
        4 => if c == '"' {
                5
            } else if c == '\\' {
                8
            } else if c != '"' && c != '\\' {
                4
            } else {
                DEAD
            },
        5 => if c == '"' {
                6
            } else if c == '\\' {
                8
            } else if c != '"' && c != '\\' {
                4
            } else {
                DEAD
            },
        6 => if c == '"' {
                7
            } else if c == '\\' {
                8
            } else if c != '"' && c != '\\' {
                4
            } else {
                DEAD
            },
        8 => if echar_char(c) {
                4
            } else if c == 'u' {
                9
            } else if c == 'U' {
                13
            } else {
                DEAD
            },
        9 => if hex(c) {
                10
            } else {
                DEAD
            },
        10 => if hex(c) {
                11
            } else {
                DEAD
            },
        11 => if hex(c) {
                12
            } else {
                DEAD
            },
        12 => if hex(c) {
                4
            } else {
                DEAD
            },
        13 => if hex(c) {
                14
            } else {
                DEAD
            },
        14 => if hex(c) {
                15
            } else {
                DEAD
            },
        15 => if hex(c) {
                16
            } else {
                DEAD
            },
        16 => if hex(c) {
                17
            } else {
                DEAD
            },
        17 => if hex(c) {
                18
            } else {
                DEAD
            },
        18 => if hex(c) {
                19
            } else {
                DEAD
            },
        19 => if hex(c) {
                20
            } else {
                DEAD
            },
        20 => if hex(c) {
                4
            } else {
                DEAD
            },
        _ => DEAD,
    }
}

/// The automaton of `<` ([^#x00-#x20<>"{}|^`\\] | UCHAR)* `>`.
pub open spec fn iri_ref_step(st: u8, c: char) -> u8 {
    match st {
        1 => if c == '<' {
                2
            } else {
                DEAD
            },
        2 => if c == '>' {
                3
            } else if is_iri_char(c) {
                2
            } else if c == '\\' {
                4
            } else {
                DEAD
            },
        4 => if c == 'u' {
                5
            } else if c == 'U' {
                9
            } else {
                DEAD
            },
        5 => if is_hex(c) {
                6
            } else {
                DEAD
            },
        6 => if is_hex(c) {
                7
            } else {
                DEAD
            },
        7 => if is_hex(c) {
                8
            } else {
                DEAD
            },
        8 => if is_hex(c) {
                2
            } else {
                DEAD
            },
        9 => if is_hex(c) {
                10
            } else {
                DEAD
            },
        10 => if is_hex(c) {
                11
            } else {
                DEAD
            },
        11 => if is_hex(c) {
                12
            } else {
                DEAD
            },
        12 => if is_hex(c) {
                13
            } else {
                DEAD
            },
        13 => if is_hex(c) {
                14
            } else {
                DEAD
            },
        14 => if is_hex(c) {
                15
            } else {
                DEAD
            },
        15 => if is_hex(c) {
                16
            } else {
                DEAD
            },
        16 => if is_hex(c) {
                2
            } else {
                DEAD
            },
        _ => DEAD,
    }
}

fn iri_ref_step_exec(st: u8, c: char) -> (r: u8)
    ensures
        r == iri_ref_step(st, c),
{
    match st {
        1 => if c == '<' {
                2
            } else {
                DEAD
            },
        2 => if c == '>' {
                3
            } else if iri_char(c) {
                2
            } else if c == '\\' {
                4
            } else {
                DEAD
            },
        4 => if c == 'u' {
                5
            } else if c == 'U' {
                9
            } else {
                DEAD
            },
        5 => if hex(c) {
                6
            } else {
                DEAD
            },
        6 => if hex(c) {
                7
            } else {
                DEAD
            },
        7 => if hex(c) {
                8
            } else {
                DEAD
            },
        8 => if hex(c) {
                2
            } else {
                DEAD
            },
        9 => if hex(c) {
                10
            } else {
                DEAD
            },
        10 => if hex(c) {
                11
            } else {
                DEAD
            },
        11 => if hex(c) {
                12
            } else {
                DEAD
            },
        12 => if hex(c) {
                13
            } else {
                DEAD
            },
        13 => if hex(c) {
                14
            } else {
                DEAD
            },
        14 => if hex(c) {
                15
            } else {
                DEAD
            },
        15 => if hex(c) {
                16
            } else {
                DEAD
            },
        16 => if hex(c) {
                2
            } else {
                DEAD
            },
        _ => DEAD,
    }
}

/// The automaton of PN_PREFIX? `:`, PN_PREFIX = PN_CHARS_BASE ((PN_CHARS | `.`)* PN_CHARS)?.
pub open spec fn p_name_ns_step(st: u8, c: char) -> u8 {
    match st {
        1 => if is_pn_chars_base(c) {
                2
            } else if c == ':' {
                4
            } else {
                DEAD
            },
        2 => if is_pn_chars(c) {
                2
            } else if c == '.' {
                3
            } else if c == ':' {
                4
            } else {
                DEAD
            },
        3 => if is_pn_chars(c) {
                2
            } else if c == '.' {
                3
            } else {
                DEAD
            },
        _ => DEAD,
    }
}

fn p_name_ns_step_exec(st: u8, c: char) -> (r: u8)
    ensures
        r == p_name_ns_step(st, c),
{
    match st {
        1 => if pn_chars_base(c) {
                2
            } else if c == ':' {
                4
            } else {
                DEAD
            },
        2 => if pn_chars(c) {
                2
            } else if c == '.' {
                3
            } else if c == ':' {
                4
            } else {
                DEAD
            },
        3 => if pn_chars(c) {
                2
            } else if c == '.' {
                3
            } else {
                DEAD
            },
        _ => DEAD,
    }
}

/// The automaton of PN_PREFIX? `:` (PN_CHARS_U | `:` | [0-9] | PLX) (`.` | PN_CHARS | `:` | PLX)*, PLX = `%` HEX HEX | `\\` ESC.
pub open spec fn p_name_ln_step(st: u8, c: char) -> u8 {
    match st {
        1 => if is_pn_chars_base(c) {
                2
            } else if c == ':' {
                5
            } else {
                DEAD
            },
        2 => if is_pn_chars(c) {
                2
            } else if c == '.' {
                3
            } else if c == ':' {
                5
            } else {
                DEAD
            },
        3 => if is_pn_chars(c) {
                2
            } else if c == '.' {
                3
            } else {
                DEAD
            },
        5 => if is_pn_chars_u(c) || c == ':' || is_digit(c) {
                6
            } else if c == '%' {
                7
            } else if c == '\\' {
                9
            } else {
                DEAD
            },
        6 => if c == '.' || is_pn_chars(c) || c == ':' {
                6
            } else if c == '%' {
                7
            } else if c == '\\' {
                9
            } else {
                DEAD
            },
        7 => if is_hex(c) {
                8
            } else {
                DEAD
            },
        8 => if is_hex(c) {
                6
            } else {
                DEAD
            },
        9 => if is_local_esc_char(c) {
                6
            } else if c == '\\' {
                10
            } else {
                DEAD
            },
        10 => if c == '"' {
                6
            } else {
                DEAD
            },
        _ => DEAD,
    }
}

fn p_name_ln_step_exec(st: u8, c: char) -> (r: u8)
    ensures
        r == p_name_ln_step(st, c),
{
    match st {
        1 => if pn_chars_base(c) {
                2
            } else if c == ':' {
                5
            } else {
                DEAD
            },
        2 => if pn_chars(c) {
                2
            } else if c == '.' {
                3
            } else if c == ':' {
                5
            } else {
                DEAD
            },
        3 => if pn_chars(c) {
                2
            } else if c == '.' {
                3
            } else {
                DEAD
            },
        5 => if pn_chars_u(c) || c == ':' || digit(c) {
                6
            } else if c == '%' {
                7
            } else if c == '\\' {
                9
            } else {
                DEAD
            },
        6 => if c == '.' || pn_chars(c) || c == ':' {
                6
            } else if c == '%' {
                7
            } else if c == '\\' {
                9
            } else {
                DEAD
            },
        7 => if hex(c) {
                8
            } else {
                DEAD
            },
        8 => if hex(c) {
                6
            } else {
                DEAD
            },
        9 => if local_esc_char(c) {
                6
            } else if c == '\\' {
                10
            } else {
                DEAD
            },
        10 => if c == '"' {
                6
            } else {
                DEAD
            },
        _ => DEAD,
    }
}

/// The automaton of `#` [^\r\n]*.
pub open spec fn comment_step(st: u8, c: char) -> u8 {
    match st {
        1 => if c == '#' {
                2
            } else {
                DEAD
            },
        2 => if !is_newline(c) {
                2
            } else {
                DEAD
            },
        _ => DEAD,
    }
}

fn comment_step_exec(st: u8, c: char) -> (r: u8)
    ensures
        r == comment_step(st, c),
{
    match st {
        1 => if c == '#' {
                2
            } else {
                DEAD
            },
        2 => if !newline(c) {
                2
            } else {
                DEAD
            },
        _ => DEAD,
    }
}

/// The automaton of a keyword: state `i + 1` has read the first `i`
/// characters of the keyword.
pub open spec fn keyword_step(k: Kind, st: u8, c: char) -> u8 {
    let (lo, up) = keyword(k);
    if st >= 1 && st - 1 < lo.len() && (c == lo[st - 1] || c == up[st - 1]) {
        (st + 1) as u8
    } else {
        DEAD
    }
}

/// The transition function of the automaton of terminal `k`.
pub open spec fn step(k: Kind, st: u8, c: char) -> u8 {
    match k {
        Kind::BlankNodeLabel => blank_node_label_step(st, c),
        Kind::Double => double_step(st, c),
        Kind::Decimal => decimal_step(st, c),
        Kind::Integer => integer_step(st, c),
        Kind::IntegerWithDot => integer_with_dot_step(st, c),
        Kind::LangTag => lang_tag_step(st, c),
        Kind::StrQuote => str_quote_step(st, c),
        Kind::StrSingle => str_single_step(st, c),
        Kind::StrLongSingle => str_long_single_step(st, c),
        Kind::StrLongQuote => str_long_quote_step(st, c),
        Kind::IriRef => iri_ref_step(st, c),
        Kind::PNameNs => p_name_ns_step(st, c),
        Kind::PNameLn => p_name_ln_step(st, c),
        Kind::Comment => comment_step(st, c),
        _ => keyword_step(k, st, c),
    }
}

/// The accepting states of the automaton of terminal `k`.
pub open spec fn accepting(k: Kind, st: u8) -> bool {
    match k {
        Kind::BlankNodeLabel => st == 4,
        Kind::Double => st == 9,
        Kind::Decimal => st == 4,
        Kind::Integer => st == 3,
        Kind::IntegerWithDot => st == 4,
        Kind::LangTag => st == 3 || st == 5,
        Kind::StrQuote => st == 3,
        Kind::StrSingle => st == 3,
        Kind::StrLongSingle => st == 7,
        Kind::StrLongQuote => st == 7,
        Kind::IriRef => st == 3,
        Kind::PNameNs => st == 4,
        Kind::PNameLn => st == 6,
        Kind::Comment => st == 2,
        _ => st >= 2 && st - 1 == keyword(k).0.len(),
    }
}

pub fn step_exec(k: Kind, st: u8, c: char) -> (r: u8)
    ensures
        r == step(k, st, c),
{
    match k {
        Kind::BlankNodeLabel => blank_node_label_step_exec(st, c),
        Kind::Double => double_step_exec(st, c),
        Kind::Decimal => decimal_step_exec(st, c),
        Kind::Integer => integer_step_exec(st, c),
        Kind::IntegerWithDot => integer_with_dot_step_exec(st, c),
        Kind::LangTag => lang_tag_step_exec(st, c),
        Kind::StrQuote => str_quote_step_exec(st, c),
        Kind::StrSingle => str_single_step_exec(st, c),
        Kind::StrLongSingle => str_long_single_step_exec(st, c),
        Kind::StrLongQuote => str_long_quote_step_exec(st, c),
        Kind::IriRef => iri_ref_step_exec(st, c),
        Kind::PNameNs => p_name_ns_step_exec(st, c),
        Kind::PNameLn => p_name_ln_step_exec(st, c),
        Kind::Comment => comment_step_exec(st, c),
        _ => {
            if st == 0 {
                return DEAD;
            }
            let (n, lo, up) = keyword_exec(k, (st - 1) as usize);
            if ((st - 1) as usize) < n && (c == lo || c == up) && st < 255 {
                st + 1
            } else {
                DEAD
            }
        },
    }
}

pub fn accepting_exec(k: Kind, st: u8) -> (r: bool)
    ensures
        r == accepting(k, st),
{
    match k {
        Kind::BlankNodeLabel => st == 4,
        Kind::Double => st == 9,
        Kind::Decimal => st == 4,
        Kind::Integer => st == 3,
        Kind::IntegerWithDot => st == 4,
        Kind::LangTag => st == 3 || st == 5,
        Kind::StrQuote => st == 3,
        Kind::StrSingle => st == 3,
        Kind::StrLongSingle => st == 7,
        Kind::StrLongQuote => st == 7,
        Kind::IriRef => st == 3,
        Kind::PNameNs => st == 4,
        Kind::PNameLn => st == 6,
        Kind::Comment => st == 2,
        _ => {
            let (n, _, _) = keyword_exec(k, 0);
            st >= 2 && ((st - 1) as usize) == n
        },
    }
}

/// The dead state absorbs every character.
pub proof fn lemma_dead_absorbs(k: Kind, c: char)
    ensures
        step(k, DEAD, c) == DEAD,
        !accepting(k, DEAD),
{
}

} // verus!