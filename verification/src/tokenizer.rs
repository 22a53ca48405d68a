//! The tokenizer: turns raw SQL text into an ordered token stream. It is
//! total — unknown glyphs become single-character punctuation tokens, and
//! unterminated literals or comments extend to the end of the input.
//!
//! Multi-character operators are deliberately not assembled here: each
//! operator glyph is its own token, and the repair pass merges glyph runs
//! after layout.

use vstd::prelude::*;

use crate::tokens::GToken;
use crate::tokens::Token;
use crate::tokens::TokenKind;
use crate::tokens::is_digit_char;
use crate::tokens::is_keyword;
use crate::tokens::is_op_char;
use crate::tokens::is_word_char;
use crate::tokens::is_word_start;
use crate::tokens::is_ws_char;
use crate::tokens::upper_char;
use crate::tokens::upper_seq;
use crate::tokens::view_toks;
use crate::tokens::digit_char;
use crate::tokens::keyword;
use crate::tokens::op_char;
use crate::tokens::upper_char_exec;
use crate::tokens::word_char;
use crate::tokens::word_start;
use crate::tokens::ws_char;

verus! {

// ---------------------------------------------------------------------------
// Run-length spec functions
// ---------------------------------------------------------------------------

/// Length of the whitespace run starting at `j`.
pub open spec fn ws_run(s: Seq<char>, j: int) -> nat
    decreases s.len() - j,
{
    if j < 0 || j >= s.len() || !is_ws_char(s[j]) {
        0
    } else {
        1 + ws_run(s, j + 1)
    }
}

/// Length of the word-character run starting at `j`.
pub open spec fn word_run(s: Seq<char>, j: int) -> nat
    decreases s.len() - j,
{
    if j < 0 || j >= s.len() || !is_word_char(s[j]) {
        0
    } else {
        1 + word_run(s, j + 1)
    }
}

/// Length of the run of digits and dots starting at `j` (the tail of a
/// numeric literal).
pub open spec fn num_run(s: Seq<char>, j: int) -> nat
    decreases s.len() - j,
{
    if j < 0 || j >= s.len() || !(is_digit_char(s[j]) || s[j] == '.') {
        0
    } else {
        1 + num_run(s, j + 1)
    }
}

/// Length of the digit run starting at `j` (the index of an indexed
/// placeholder).
pub open spec fn digits_run(s: Seq<char>, j: int) -> nat
    decreases s.len() - j,
{
    if j < 0 || j >= s.len() || !is_digit_char(s[j]) {
        0
    } else {
        1 + digits_run(s, j + 1)
    }
}

/// Number of characters left on the current line, the newline excluded.
pub open spec fn line_rest(s: Seq<char>, j: int) -> nat
    decreases s.len() - j,
{
    if j < 0 || j >= s.len() || s[j] == '\n' {
        0
    } else {
        1 + line_rest(s, j + 1)
    }
}

/// Remaining length of a quoted region opened by `q`, the closing quote
/// included; a doubled quote stands for one literal quote character.
/// An unterminated region extends to the end of the input.
pub open spec fn quote_rest(s: Seq<char>, j: int, q: char) -> nat
    decreases s.len() - j,
{
    if j < 0 || j >= s.len() {
        0
    } else if s[j] == q {
        if j + 1 < s.len() && s[j + 1] == q {
            2 + quote_rest(s, j + 2, q)
        } else {
            1
        }
    } else {
        1 + quote_rest(s, j + 1, q)
    }
}

/// Remaining length of a block comment, the closing `*/` included.
pub open spec fn block_rest(s: Seq<char>, j: int) -> nat
    decreases s.len() - j,
{
    if j < 0 || j >= s.len() {
        0
    } else if s[j] == '*' && j + 1 < s.len() && s[j + 1] == '/' {
        2
    } else {
        1 + block_rest(s, j + 1)
    }
}

// ---------------------------------------------------------------------------
// The token step
// ---------------------------------------------------------------------------

/// Length of the token that starts at position `i`; always at least one.
pub open spec fn token_len_at(s: Seq<char>, i: int) -> nat
    recommends
        0 <= i < s.len(),
{
    let c = s[i];
    if is_ws_char(c) {
        1 + ws_run(s, i + 1)
    } else if c == '\'' {
        1 + quote_rest(s, i + 1, '\'')
    } else if c == '"' {
        1 + quote_rest(s, i + 1, '"')
    } else if c == '-' && i + 1 < s.len() && s[i + 1] == '-' {
        2 + line_rest(s, i + 2)
    } else if c == '/' && i + 1 < s.len() && s[i + 1] == '*' {
        2 + block_rest(s, i + 2)
    } else if c == '?' {
        1 + digits_run(s, i + 1)
    } else if is_digit_char(c) {
        1 + num_run(s, i + 1)
    } else if is_word_start(c) {
        1 + word_run(s, i + 1)
    } else {
        1
    }
}

/// Kind of the token that starts at position `i`.
pub open spec fn token_kind_at(s: Seq<char>, i: int) -> TokenKind
    recommends
        0 <= i < s.len(),
{
    let c = s[i];
    if is_ws_char(c) {
        TokenKind::Whitespace
    } else if c == '\'' {
        TokenKind::StringLit
    } else if c == '"' {
        TokenKind::QuotedIdent
    } else if c == '-' && i + 1 < s.len() && s[i + 1] == '-' {
        TokenKind::LineComment
    } else if c == '/' && i + 1 < s.len() && s[i + 1] == '*' {
        TokenKind::BlockComment
    } else if c == '?' {
        TokenKind::Placeholder
    } else if is_digit_char(c) {
        TokenKind::NumberLit
    } else if is_word_start(c) {
        if is_keyword(upper_seq(s.subrange(i, i + token_len_at(s, i)))) {
            TokenKind::Keyword
        } else {
            TokenKind::Identifier
        }
    } else if is_op_char(c) {
        TokenKind::Operator
    } else {
        TokenKind::Punct
    }
}

pub proof fn lemma_ws_run_bound(s: Seq<char>, j: int)
    requires
        0 <= j <= s.len(),
    ensures
        ws_run(s, j) <= s.len() - j,
    decreases s.len() - j,
{
    if j < s.len() && is_ws_char(s[j]) {
        lemma_ws_run_bound(s, j + 1);
    }
}

pub proof fn lemma_word_run_bound(s: Seq<char>, j: int)
    requires
        0 <= j <= s.len(),
    ensures
        word_run(s, j) <= s.len() - j,
    decreases s.len() - j,
{
    if j < s.len() && is_word_char(s[j]) {
        lemma_word_run_bound(s, j + 1);
    }
}

pub proof fn lemma_num_run_bound(s: Seq<char>, j: int)
    requires
        0 <= j <= s.len(),
    ensures
        num_run(s, j) <= s.len() - j,
    decreases s.len() - j,
{
    if j < s.len() && (is_digit_char(s[j]) || s[j] == '.') {
        lemma_num_run_bound(s, j + 1);
    }
}

pub proof fn lemma_digits_run_bound(s: Seq<char>, j: int)
    requires
        0 <= j <= s.len(),
    ensures
        digits_run(s, j) <= s.len() - j,
    decreases s.len() - j,
{
    if j < s.len() && is_digit_char(s[j]) {
        lemma_digits_run_bound(s, j + 1);
    }
}

pub proof fn lemma_line_rest_bound(s: Seq<char>, j: int)
    requires
        0 <= j <= s.len(),
    ensures
        line_rest(s, j) <= s.len() - j,
    decreases s.len() - j,
{
    if j < s.len() && s[j] != '\n' {
        lemma_line_rest_bound(s, j + 1);
    }
}

pub proof fn lemma_quote_rest_bound(s: Seq<char>, j: int, q: char)
    requires
        0 <= j <= s.len(),
    ensures
        quote_rest(s, j, q) <= s.len() - j,
    decreases s.len() - j,
{
    if j < s.len() {
        if s[j] == q {
            if j + 1 < s.len() && s[j + 1] == q {
                lemma_quote_rest_bound(s, j + 2, q);
            }
        } else {
            lemma_quote_rest_bound(s, j + 1, q);
        }
    }
}

pub proof fn lemma_block_rest_bound(s: Seq<char>, j: int)
    requires
        0 <= j <= s.len(),
    ensures
        block_rest(s, j) <= s.len() - j,
    decreases s.len() - j,
{
    if j < s.len() {
        if !(s[j] == '*' && j + 1 < s.len() && s[j + 1] == '/') {
            lemma_block_rest_bound(s, j + 1);
        }
    }
}

/// A maximal word region determines the word run exactly.
pub proof fn lemma_word_run_region(s: Seq<char>, j: int, end: int)
    requires
        0 <= j <= end <= s.len(),
        forall|k: int| j <= k < end ==> is_word_char(s[k]),
        end == s.len() || !is_word_char(s[end]),
    ensures
        word_run(s, j) == end - j,
    decreases end - j,
{
    if j < end {
        lemma_word_run_region(s, j + 1, end);
    }
}

/// A maximal whitespace region determines the whitespace run exactly.
pub proof fn lemma_ws_run_region(s: Seq<char>, j: int, end: int)
    requires
        0 <= j <= end <= s.len(),
        forall|k: int| j <= k < end ==> is_ws_char(s[k]),
        end == s.len() || !is_ws_char(s[end]),
    ensures
        ws_run(s, j) == end - j,
    decreases end - j,
{
    if j < end {
        lemma_ws_run_region(s, j + 1, end);
    }
}

/// Every token has at least one character and ends within the input.
pub proof fn lemma_token_len_at_bounds(s: Seq<char>, i: int)
    requires
        0 <= i < s.len(),
    ensures
        1 <= token_len_at(s, i),
        i + token_len_at(s, i) <= s.len(),
{
    let c = s[i];
    if is_ws_char(c) {
        lemma_ws_run_bound(s, i + 1);
    } else if c == '\'' {
        lemma_quote_rest_bound(s, i + 1, '\'');
    } else if c == '"' {
        lemma_quote_rest_bound(s, i + 1, '"');
    } else if c == '-' && i + 1 < s.len() && s[i + 1] == '-' {
        lemma_line_rest_bound(s, i + 2);
    } else if c == '/' && i + 1 < s.len() && s[i + 1] == '*' {
        lemma_block_rest_bound(s, i + 2);
    } else if c == '?' {
        lemma_digits_run_bound(s, i + 1);
    } else if is_digit_char(c) {
        lemma_num_run_bound(s, i + 1);
    } else if is_word_start(c) {
        lemma_word_run_bound(s, i + 1);
    }
}

/// The token stream of `s` from position `i` on.
pub open spec fn spec_tokenize(s: Seq<char>, i: int) -> Seq<GToken>
    decreases s.len() - i,
    via spec_tokenize_dec
{
    if i < 0 || i >= s.len() {
        Seq::empty()
    } else {
        seq![
            GToken { kind: token_kind_at(s, i), text: s.subrange(i, i + token_len_at(s, i)), pos: i },
        ] + spec_tokenize(s, i + token_len_at(s, i))
    }
}

#[via_fn]
proof fn spec_tokenize_dec(s: Seq<char>, i: int) {
    if 0 <= i < s.len() {
        lemma_token_len_at_bounds(s, i);
    }
}

// ---------------------------------------------------------------------------
// Executable scanners
// ---------------------------------------------------------------------------

fn scan_ws(s: &Vec<char>, start: usize) -> (end: usize)
    requires
        start <= s@.len(),
    ensures
        start <= end <= s@.len(),
        end - start == ws_run(s@, start as int),
{
    let mut j: usize = start;
    while j < s.len() && ws_char(s[j])
        invariant
            start <= j <= s@.len(),
            ws_run(s@, start as int) == (j - start) + ws_run(s@, j as int),
        decreases s@.len() - j,
    {
        j += 1;
    }
    j
}

fn scan_word(s: &Vec<char>, start: usize) -> (end: usize)
    requires
        start <= s@.len(),
    ensures
        start <= end <= s@.len(),
        end - start == word_run(s@, start as int),
{
    let mut j: usize = start;
    while j < s.len() && word_char(s[j])
        invariant
            start <= j <= s@.len(),
            word_run(s@, start as int) == (j - start) + word_run(s@, j as int),
        decreases s@.len() - j,
    {
        j += 1;
    }
    j
}

fn scan_num(s: &Vec<char>, start: usize) -> (end: usize)
    requires
        start <= s@.len(),
    ensures
        start <= end <= s@.len(),
        end - start == num_run(s@, start as int),
{
    let mut j: usize = start;
    while j < s.len() && (digit_char(s[j]) || s[j] == '.')
        invariant
            start <= j <= s@.len(),
            num_run(s@, start as int) == (j - start) + num_run(s@, j as int),
        decreases s@.len() - j,
    {
        j += 1;
    }
    j
}

fn scan_digits(s: &Vec<char>, start: usize) -> (end: usize)
    requires
        start <= s@.len(),
    ensures
        start <= end <= s@.len(),
        end - start == digits_run(s@, start as int),
{
    let mut j: usize = start;
    while j < s.len() && digit_char(s[j])
        invariant
            start <= j <= s@.len(),
            digits_run(s@, start as int) == (j - start) + digits_run(s@, j as int),
        decreases s@.len() - j,
    {
        j += 1;
    }
    j
}

fn scan_line(s: &Vec<char>, start: usize) -> (end: usize)
    requires
        start <= s@.len(),
    ensures
        start <= end <= s@.len(),
        end - start == line_rest(s@, start as int),
{
    let mut j: usize = start;
    while j < s.len() && s[j] != '\n'
        invariant
            start <= j <= s@.len(),
            line_rest(s@, start as int) == (j - start) + line_rest(s@, j as int),
        decreases s@.len() - j,
    {
        j += 1;
    }
    j
}

fn scan_quote(s: &Vec<char>, start: usize, q: char) -> (end: usize)
    requires
        start <= s@.len(),
    ensures
        start <= end <= s@.len(),
        end - start == quote_rest(s@, start as int, q),
{
    let mut j: usize = start;
    loop
        invariant
            start <= j <= s@.len(),
            quote_rest(s@, start as int, q) == (j - start) + quote_rest(s@, j as int, q),
        decreases s@.len() - j,
    {
        if j >= s.len() {
            return j;
        }
        if s[j] == q {
            if j + 1 < s.len() && s[j + 1] == q {
                j += 2;
            } else {
                return j + 1;
            }
        } else {
            j += 1;
        }
    }
}

fn scan_block(s: &Vec<char>, start: usize) -> (end: usize)
    requires
        start <= s@.len(),
    ensures
        start <= end <= s@.len(),
        end - start == block_rest(s@, start as int),
{
    let mut j: usize = start;
    loop
        invariant
            start <= j <= s@.len(),
            block_rest(s@, start as int) == (j - start) + block_rest(s@, j as int),
        decreases s@.len() - j,
    {
        if j >= s.len() {
            return j;
        }
        if s[j] == '*' && j + 1 < s.len() && s[j + 1] == '/' {
            return j + 2;
        }
        j += 1;
    }
}

// ---------------------------------------------------------------------------
// The tokenizer
// ---------------------------------------------------------------------------

/// Computes the kind and end position of the token starting at `i`.
fn next_token(s: &Vec<char>, i: usize) -> (res: (TokenKind, usize))
    requires
        i < s@.len(),
    ensures
        res.1 == i + token_len_at(s@, i as int),
        res.0 == token_kind_at(s@, i as int),
        i < res.1 <= s@.len(),
{
    let n = s.len();
    let c = s[i];
    if ws_char(c) {
        (TokenKind::Whitespace, scan_ws(s, i + 1))
    } else if c == '\'' {
        (TokenKind::StringLit, scan_quote(s, i + 1, '\''))
    } else if c == '"' {
        (TokenKind::QuotedIdent, scan_quote(s, i + 1, '"'))
    } else if c == '-' && i + 1 < s.len() && s[i + 1] == '-' {
        (TokenKind::LineComment, scan_line(s, i + 2))
    } else if c == '/' && i + 1 < s.len() && s[i + 1] == '*' {
        (TokenKind::BlockComment, scan_block(s, i + 2))
    } else if c == '?' {
        (TokenKind::Placeholder, scan_digits(s, i + 1))
    } else if digit_char(c) {
        (TokenKind::NumberLit, scan_num(s, i + 1))
    } else if word_start(c) {
        let end = scan_word(s, i + 1);
        let mut up: Vec<char> = Vec::new();
        let mut j: usize = i;
        while j < end
            invariant
                i <= j <= end <= s@.len(),
                up@.len() == j - i,
            forall|m: int| 0 <= m < up@.len() ==> up@[m] == upper_char(s@[i + m]),
            decreases end - j,
        {
            up.push(upper_char_exec(s[j]));
            j += 1;
        }
        proof {
            assert(up@ =~= upper_seq(s@.subrange(i as int, end as int)));
        }
        if keyword(&up) {
            (TokenKind::Keyword, end)
        } else {
            (TokenKind::Identifier, end)
        }
    } else if op_char(c) {
        (TokenKind::Operator, i + 1)
    } else {
        (TokenKind::Punct, i + 1)
    }
}

/// Tokenizes the whole input. Total: every character lands in exactly one
/// token, in input order.
pub fn tokenize(s: &Vec<char>) -> (r: Vec<Token>)
    ensures
        view_toks(r@) == spec_tokenize(s@, 0),
{
    let mut r: Vec<Token> = Vec::new();
    let mut i: usize = 0;
    while i < s.len()
        invariant
            i <= s@.len(),
            spec_tokenize(s@, 0) == view_toks(r@) + spec_tokenize(s@, i as int),
        decreases s@.len() - i,
    {
        let (k, end) = next_token(s, i);
        let mut text: Vec<char> = Vec::new();
        let mut j: usize = i;
        while j < end
            invariant
                i <= j <= end <= s@.len(),
                text@ =~= s@.subrange(i as int, j as int),
            decreases end - j,
        {
            text.push(s[j]);
            proof {
                assert(text@ =~= s@.subrange(i as int, j + 1));
            }
            j += 1;
        }
        let t = Token { kind: k, text, pos: i };
        proof {
            let ghost gt = GToken {
                kind: token_kind_at(s@, i as int),
                text: s@.subrange(i as int, i + token_len_at(s@, i as int)),
                pos: i as int,
            };
            assert(t@ == gt);
            assert(spec_tokenize(s@, i as int) == seq![gt] + spec_tokenize(s@, end as int));
            assert(view_toks(r@.push(t)) =~= view_toks(r@).push(t@));
            assert(view_toks(r@) + (seq![gt] + spec_tokenize(s@, end as int)) =~= view_toks(
                r@,
            ).push(gt) + spec_tokenize(s@, end as int));
        }
        r.push(t);
        i = end;
    }
    proof {
        assert(view_toks(r@) + spec_tokenize(s@, i as int) =~= view_toks(r@));
    }
    r
}


/// Tokenizing a text of the shape `word ws glyph ws glyph ws word` — the
/// words no keywords, the glyphs operator characters — yields exactly the
/// seven corresponding tokens.
#[verifier::rlimit(100)]
pub proof fn lemma_tokenize_spaced_pair(
    x: Seq<char>,
    w1: Seq<char>,
    a: char,
    w2: Seq<char>,
    b: char,
    w3: Seq<char>,
    y: Seq<char>,
)
    requires
        x.len() > 0,
        y.len() > 0,
        forall|k: int| 0 <= k < x.len() ==> is_word_char(x[k]),
        forall|k: int| 0 <= k < y.len() ==> is_word_char(y[k]),
        is_word_start(x[0]),
        is_word_start(y[0]),
        !is_keyword(upper_seq(x)),
        !is_keyword(upper_seq(y)),
        w1.len() > 0,
        w2.len() > 0,
        w3.len() > 0,
        forall|k: int| 0 <= k < w1.len() ==> is_ws_char(w1[k]),
        forall|k: int| 0 <= k < w2.len() ==> is_ws_char(w2[k]),
        forall|k: int| 0 <= k < w3.len() ==> is_ws_char(w3[k]),
        is_op_char(a),
        a != '?',
        is_op_char(b),
        b != '?',
    ensures
        ({
            let u = x + w1 + seq![a] + w2 + seq![b] + w3 + y;
            let pa = x.len() + w1.len();
            let pb = pa + 1 + w2.len();
            let py = pb + 1 + w3.len();
            spec_tokenize(u, 0) == seq![
                GToken { kind: TokenKind::Identifier, text: x, pos: 0 },
                GToken { kind: TokenKind::Whitespace, text: w1, pos: x.len() as int },
                GToken { kind: TokenKind::Operator, text: seq![a], pos: pa as int },
                GToken { kind: TokenKind::Whitespace, text: w2, pos: pa + 1 as int },
                GToken { kind: TokenKind::Operator, text: seq![b], pos: pb as int },
                GToken { kind: TokenKind::Whitespace, text: w3, pos: pb + 1 as int },
                GToken { kind: TokenKind::Identifier, text: y, pos: py as int },
            ]
        }),
{
    let u = x + w1 + seq![a] + w2 + seq![b] + w3 + y;
    let nx = x.len() as int;
    let pa = nx + w1.len() as int;
    let pb = pa + 1 + w2.len() as int;
    let py = pb + 1 + w3.len() as int;

    // Where each character of the joined text comes from.
    assert(u.len() == py + y.len());
    assert(forall|k: int| 0 <= k < nx ==> u[k] == x[k]);
    assert(forall|k: int| nx <= k < pa ==> u[k] == w1[k - nx]);
    assert(u[pa] == a);
    assert(forall|k: int| pa + 1 <= k < pb ==> u[k] == w2[k - pa - 1]);
    assert(u[pb] == b);
    assert(forall|k: int| pb + 1 <= k < py ==> u[k] == w3[k - pb - 1]);
    assert(forall|k: int| py <= k < u.len() ==> u[k] == y[k - py]);

    // The identifier that opens the text.
    lemma_word_run_region(u, 1, nx);
    assert(token_len_at(u, 0) == nx);
    assert(u.subrange(0, nx) =~= x);
    assert(token_kind_at(u, 0) == TokenKind::Identifier);
    let tok_x = GToken { kind: TokenKind::Identifier, text: x, pos: 0 };
    assert(spec_tokenize(u, 0) == seq![tok_x] + spec_tokenize(u, nx));

    // First whitespace run.
    lemma_ws_run_region(u, nx + 1, pa);
    assert(token_len_at(u, nx) == pa - nx);
    assert(u.subrange(nx, pa) =~= w1);
    let tok_w1 = GToken { kind: TokenKind::Whitespace, text: w1, pos: nx };
    assert(spec_tokenize(u, nx) == seq![tok_w1] + spec_tokenize(u, pa));

    // First operator glyph: one character on its own.
    assert(token_len_at(u, pa) == 1);
    assert(u.subrange(pa, pa + 1) =~= seq![a]);
    assert(token_kind_at(u, pa) == TokenKind::Operator);
    let tok_a = GToken { kind: TokenKind::Operator, text: seq![a], pos: pa };
    assert(spec_tokenize(u, pa) == seq![tok_a] + spec_tokenize(u, pa + 1));

    // Second whitespace run.
    lemma_ws_run_region(u, pa + 2, pb);
    assert(token_len_at(u, pa + 1) == pb - pa - 1);
    assert(u.subrange(pa + 1, pb) =~= w2);
    let tok_w2 = GToken { kind: TokenKind::Whitespace, text: w2, pos: pa + 1 };
    assert(spec_tokenize(u, pa + 1) == seq![tok_w2] + spec_tokenize(u, pb));

    // Second operator glyph.
    assert(token_len_at(u, pb) == 1);
    assert(u.subrange(pb, pb + 1) =~= seq![b]);
    assert(token_kind_at(u, pb) == TokenKind::Operator);
    let tok_b = GToken { kind: TokenKind::Operator, text: seq![b], pos: pb };
    assert(spec_tokenize(u, pb) == seq![tok_b] + spec_tokenize(u, pb + 1));

    // Third whitespace run.
    lemma_ws_run_region(u, pb + 2, py);
    assert(token_len_at(u, pb + 1) == py - pb - 1);
    assert(u.subrange(pb + 1, py) =~= w3);
    let tok_w3 = GToken { kind: TokenKind::Whitespace, text: w3, pos: pb + 1 };
    assert(spec_tokenize(u, pb + 1) == seq![tok_w3] + spec_tokenize(u, py));

    // The identifier that closes the text.
    lemma_word_run_region(u, py + 1, u.len() as int);
    assert(token_len_at(u, py) == u.len() - py);
    assert(u.subrange(py, u.len() as int) =~= y);
    assert(token_kind_at(u, py) == TokenKind::Identifier);
    let tok_y = GToken { kind: TokenKind::Identifier, text: y, pos: py };
    assert(spec_tokenize(u, py) == seq![tok_y] + spec_tokenize(u, u.len() as int));
    assert(spec_tokenize(u, u.len() as int) == Seq::<GToken>::empty());

    assert(spec_tokenize(u, 0) =~= seq![tok_x, tok_w1, tok_a, tok_w2, tok_b, tok_w3, tok_y]);
}

} // verus!
