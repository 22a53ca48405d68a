//! Lexical categories: character classes, case folding, the keyword table,
//! and the token type shared by every pass of the formatter.

use vstd::prelude::*;
use vstd::string::StrSliceExecFns;

verus! {

// ---------------------------------------------------------------------------
// Character classes
// ---------------------------------------------------------------------------

/// Whitespace characters recognized by the tokenizer and the repair pass.
pub open spec fn is_ws_char(c: char) -> bool {
    c == ' ' || c == '\t' || c == '\r' || c == '\n'
}

/// ASCII decimal digit.
pub open spec fn is_digit_char(c: char) -> bool {
    let u = c as u32;
    48 <= u && u <= 57
}

/// Operator-class glyphs: single characters that may combine into
/// multi-character SQL operators.
pub open spec fn is_op_char(c: char) -> bool {
    c == '+' || c == '-' || c == '*' || c == '/' || c == '<' || c == '=' || c == '>' || c == '~'
        || c == '!' || c == '@' || c == '#' || c == '%' || c == '^' || c == '&' || c == '|'
        || c == '`' || c == '?'
}

/// Characters that may continue an identifier or keyword word: ASCII
/// letters, digits, underscore, and any non-ASCII character.
pub open spec fn is_word_char(c: char) -> bool {
    let u = c as u32;
    (65 <= u && u <= 90) || (97 <= u && u <= 122) || u == 95 || u > 127 || is_digit_char(c)
}

/// Characters that may start a word (a digit instead starts a number).
pub open spec fn is_word_start(c: char) -> bool {
    is_word_char(c) && !is_digit_char(c)
}

pub fn ws_char(c: char) -> (b: bool)
    ensures
        b == is_ws_char(c),
{
    c == ' ' || c == '\t' || c == '\r' || c == '\n'
}

pub fn digit_char(c: char) -> (b: bool)
    ensures
        b == is_digit_char(c),
{
    let u = c as u32;
    48 <= u && u <= 57
}

pub fn op_char(c: char) -> (b: bool)
    ensures
        b == is_op_char(c),
{
    c == '+' || c == '-' || c == '*' || c == '/' || c == '<' || c == '=' || c == '>' || c == '~'
        || c == '!' || c == '@' || c == '#' || c == '%' || c == '^' || c == '&' || c == '|'
        || c == '`' || c == '?'
}

pub fn word_char(c: char) -> (b: bool)
    ensures
        b == is_word_char(c),
{
    let u = c as u32;
    (65 <= u && u <= 90) || (97 <= u && u <= 122) || u == 95 || u > 127 || (48 <= u && u <= 57)
}

pub fn word_start(c: char) -> (b: bool)
    ensures
        b == is_word_start(c),
{
    word_char(c) && !digit_char(c)
}

// ---------------------------------------------------------------------------
// ASCII upper-casing
// ---------------------------------------------------------------------------

/// Upper-cases one ASCII letter; every other character is unchanged.
pub open spec fn upper_char(c: char) -> char {
    let u = c as u32;
    if 97 <= u && u <= 122 {
        ((u - 32) as u8) as char
    } else {
        c
    }
}

/// Upper-cases each character of a sequence.
pub open spec fn upper_seq(s: Seq<char>) -> Seq<char> {
    Seq::new(s.len(), |i: int| upper_char(s[i]))
}

pub fn upper_char_exec(c: char) -> (r: char)
    ensures
        r == upper_char(c),
{
    let u = c as u32;
    if 97 <= u && u <= 122 {
        ((u - 32) as u8) as char
    } else {
        c
    }
}

// ---------------------------------------------------------------------------
// Tokens
// ---------------------------------------------------------------------------

/// Lexical category of a token.
#[derive(Clone, Copy, PartialEq, Eq, Structural, Debug)]
pub enum TokenKind {
    Keyword,
    Identifier,
    QuotedIdent,
    NumberLit,
    StringLit,
    Operator,
    Punct,
    LineComment,
    BlockComment,
    Placeholder,
    Whitespace,
}

/// One lexical unit of the source text. `pos` is the character offset of the
/// token's first character in the original input, kept for diagnostics.
pub struct Token {
    pub kind: TokenKind,
    pub text: Vec<char>,
    pub pos: usize,
}

/// The mathematical model of a token.
pub struct GToken {
    pub kind: TokenKind,
    pub text: Seq<char>,
    pub pos: int,
}

impl View for Token {
    type V = GToken;

    open spec fn view(&self) -> GToken {
        GToken { kind: self.kind, text: self.text@, pos: self.pos as int }
    }
}

/// The model of a whole token stream.
pub open spec fn view_toks(ts: Seq<Token>) -> Seq<GToken> {
    Seq::new(ts.len(), |i: int| ts[i]@)
}

// ---------------------------------------------------------------------------
// Word comparison and the keyword tables
// ---------------------------------------------------------------------------

/// Compares a character vector against a string slice, character by character.
pub fn chars_eq_str(w: &Vec<char>, k: &str) -> (b: bool)
    ensures
        b == (w@ == k@),
{
    let n = k.unicode_len();
    if w.len() != n {
        proof {
            if w@ == k@ {
                assert(w@.len() == k@.len());
            }
        }
        return false;
    }
    let mut i: usize = 0;
    while i < n
        invariant
            w@.len() == n,
            k@.len() == n,
            i <= n,
            forall|j: int| 0 <= j < i ==> w@[j] == k@[j],
        decreases n - i,
    {
        if w[i] != k.get_char(i) {
            return false;
        }
        i += 1;
    }
    proof {
        assert(w@ =~= k@);
    }
    true
}

/// The recognized SQL keywords, compared against an upper-cased word.
pub open spec fn is_keyword(w: Seq<char>) -> bool {
    ||| w == "SELECT"@
    ||| w == "FROM"@
    ||| w == "WHERE"@
    ||| w == "AND"@
    ||| w == "OR"@
    ||| w == "NOT"@
    ||| w == "AS"@
    ||| w == "ON"@
    ||| w == "JOIN"@
    ||| w == "INNER"@
    ||| w == "LEFT"@
    ||| w == "RIGHT"@
    ||| w == "FULL"@
    ||| w == "OUTER"@
    ||| w == "CROSS"@
    ||| w == "GROUP"@
    ||| w == "ORDER"@
    ||| w == "BY"@
    ||| w == "HAVING"@
    ||| w == "LIMIT"@
    ||| w == "OFFSET"@
    ||| w == "UNION"@
    ||| w == "ALL"@
    ||| w == "DISTINCT"@
    ||| w == "INSERT"@
    ||| w == "INTO"@
    ||| w == "VALUES"@
    ||| w == "UPDATE"@
    ||| w == "SET"@
    ||| w == "DELETE"@
    ||| w == "CASE"@
    ||| w == "WHEN"@
    ||| w == "THEN"@
    ||| w == "ELSE"@
    ||| w == "END"@
    ||| w == "NULL"@
    ||| w == "IS"@
    ||| w == "IN"@
    ||| w == "EXISTS"@
    ||| w == "BETWEEN"@
    ||| w == "LIKE"@
    ||| w == "ASC"@
    ||| w == "DESC"@
}

/// Decides keyword membership for an upper-cased word.
pub fn keyword(w: &Vec<char>) -> (b: bool)
    ensures
        b == is_keyword(w@),
{
    chars_eq_str(w, "SELECT") || chars_eq_str(w, "FROM") || chars_eq_str(w, "WHERE")
        || chars_eq_str(w, "AND") || chars_eq_str(w, "OR") || chars_eq_str(w, "NOT")
        || chars_eq_str(w, "AS") || chars_eq_str(w, "ON") || chars_eq_str(w, "JOIN")
        || chars_eq_str(w, "INNER") || chars_eq_str(w, "LEFT") || chars_eq_str(w, "RIGHT")
        || chars_eq_str(w, "FULL") || chars_eq_str(w, "OUTER") || chars_eq_str(w, "CROSS")
        || chars_eq_str(w, "GROUP") || chars_eq_str(w, "ORDER") || chars_eq_str(w, "BY")
        || chars_eq_str(w, "HAVING") || chars_eq_str(w, "LIMIT") || chars_eq_str(w, "OFFSET")
        || chars_eq_str(w, "UNION") || chars_eq_str(w, "ALL") || chars_eq_str(w, "DISTINCT")
        || chars_eq_str(w, "INSERT") || chars_eq_str(w, "INTO") || chars_eq_str(w, "VALUES")
        || chars_eq_str(w, "UPDATE") || chars_eq_str(w, "SET") || chars_eq_str(w, "DELETE")
        || chars_eq_str(w, "CASE") || chars_eq_str(w, "WHEN") || chars_eq_str(w, "THEN")
        || chars_eq_str(w, "ELSE") || chars_eq_str(w, "END") || chars_eq_str(w, "NULL")
        || chars_eq_str(w, "IS") || chars_eq_str(w, "IN") || chars_eq_str(w, "EXISTS")
        || chars_eq_str(w, "BETWEEN") || chars_eq_str(w, "LIKE") || chars_eq_str(w, "ASC")
        || chars_eq_str(w, "DESC")
}

/// Keywords that open a new clause: the layout pass starts a fresh line
/// before each of them.
pub open spec fn is_boundary_kw(w: Seq<char>) -> bool {
    ||| w == "SELECT"@
    ||| w == "FROM"@
    ||| w == "WHERE"@
    ||| w == "GROUP"@
    ||| w == "ORDER"@
    ||| w == "HAVING"@
    ||| w == "LIMIT"@
    ||| w == "UNION"@
    ||| w == "VALUES"@
    ||| w == "SET"@
    ||| w == "JOIN"@
    ||| w == "LEFT"@
    ||| w == "RIGHT"@
    ||| w == "INNER"@
    ||| w == "OUTER"@
    ||| w == "FULL"@
    ||| w == "CROSS"@
}

/// Decides clause-boundary membership for an upper-cased word.
pub fn boundary_kw(w: &Vec<char>) -> (b: bool)
    ensures
        b == is_boundary_kw(w@),
{
    chars_eq_str(w, "SELECT") || chars_eq_str(w, "FROM") || chars_eq_str(w, "WHERE")
        || chars_eq_str(w, "GROUP") || chars_eq_str(w, "ORDER") || chars_eq_str(w, "HAVING")
        || chars_eq_str(w, "LIMIT") || chars_eq_str(w, "UNION") || chars_eq_str(w, "VALUES")
        || chars_eq_str(w, "SET") || chars_eq_str(w, "JOIN") || chars_eq_str(w, "LEFT")
        || chars_eq_str(w, "RIGHT") || chars_eq_str(w, "INNER") || chars_eq_str(w, "OUTER")
        || chars_eq_str(w, "FULL") || chars_eq_str(w, "CROSS")
}

/// Join-modifier keywords: a clause-boundary keyword directly after one of
/// these stays on the same line, so that `LEFT OUTER JOIN` is not split.
pub open spec fn is_join_modifier(w: Seq<char>) -> bool {
    ||| w == "LEFT"@
    ||| w == "RIGHT"@
    ||| w == "INNER"@
    ||| w == "OUTER"@
    ||| w == "FULL"@
    ||| w == "CROSS"@
}

/// Decides join-modifier membership for an upper-cased word.
pub fn join_modifier(w: &Vec<char>) -> (b: bool)
    ensures
        b == is_join_modifier(w@),
{
    chars_eq_str(w, "LEFT") || chars_eq_str(w, "RIGHT") || chars_eq_str(w, "INNER")
        || chars_eq_str(w, "OUTER") || chars_eq_str(w, "FULL") || chars_eq_str(w, "CROSS")
}

} // verus!

