//! The case normalizer: rewrites keyword tokens to upper case when
//! configured, except for token spellings listed in the exclusion set.
//! Literals, comments and plain identifiers are never case-converted.

use vstd::prelude::*;

use crate::FormatOptions;
use crate::tokens::GToken;
use crate::tokens::Token;
use crate::tokens::TokenKind;
use crate::tokens::chars_eq_str;
use crate::tokens::upper_char;
use crate::tokens::upper_seq;
use crate::tokens::upper_char_exec;
use crate::tokens::view_toks;

verus! {

/// Whether `w` is one of the excluded spellings, compared case-sensitively.
pub open spec fn in_exclusions(w: Seq<char>, ex: Seq<String>) -> bool {
    exists|i: int| 0 <= i < ex.len() && ex[i]@ == w
}

/// What the normalizer does with one token.
pub open spec fn normalize_tok(t: GToken, opts: FormatOptions) -> GToken {
    if t.kind == TokenKind::Keyword && opts.uppercase_keywords && !in_exclusions(
        t.text,
        opts.case_conversion_exclusions@,
    ) {
        GToken { kind: t.kind, text: upper_seq(t.text), pos: t.pos }
    } else {
        t
    }
}

/// What the normalizer does with a token stream: a pure, order- and
/// length-preserving map.
pub open spec fn normalize_toks(ts: Seq<GToken>, opts: FormatOptions) -> Seq<GToken> {
    Seq::new(ts.len(), |i: int| normalize_tok(ts[i], opts))
}

/// Decides membership of a word in the exclusion set.
fn excluded(w: &Vec<char>, ex: &Vec<String>) -> (b: bool)
    ensures
        b == in_exclusions(w@, ex@),
{
    let mut i: usize = 0;
    while i < ex.len()
        invariant
            i <= ex@.len(),
            forall|j: int| 0 <= j < i ==> ex@[j]@ != w@,
        decreases ex@.len() - i,
    {
        if chars_eq_str(w, ex[i].as_str()) {
            return true;
        }
        i += 1;
    }
    false
}

/// Copies a character vector.
pub fn copy_chars(v: &Vec<char>) -> (r: Vec<char>)
    ensures
        r@ == v@,
{
    let mut r: Vec<char> = Vec::new();
    let mut i: usize = 0;
    while i < v.len()
        invariant
            i <= v@.len(),
            r@ =~= v@.subrange(0, i as int),
        decreases v@.len() - i,
    {
        r.push(v[i]);
        proof {
            assert(r@ =~= v@.subrange(0, i + 1));
        }
        i += 1;
    }
    proof {
        assert(r@ =~= v@);
    }
    r
}

/// Copies a token.
pub fn copy_token(t: &Token) -> (r: Token)
    ensures
        r@ == t@,
{
    Token { kind: t.kind, text: copy_chars(&t.text), pos: t.pos }
}

/// Upper-cases a character vector.
pub fn upper_chars(v: &Vec<char>) -> (r: Vec<char>)
    ensures
        r@ == upper_seq(v@),
{
    let mut r: Vec<char> = Vec::new();
    let mut i: usize = 0;
    while i < v.len()
        invariant
            i <= v@.len(),
            r@.len() == i,
            forall|j: int| 0 <= j < i ==> r@[j] == upper_char(v@[j]),
        decreases v@.len() - i,
    {
        r.push(upper_char_exec(v[i]));
        i += 1;
    }
    proof {
        assert(r@ =~= upper_seq(v@));
    }
    r
}

/// Applies the configured case policy to every token of the stream.
pub fn normalize(ts: &Vec<Token>, opts: &FormatOptions) -> (r: Vec<Token>)
    ensures
        view_toks(r@) == normalize_toks(view_toks(ts@), *opts),
{
    let mut r: Vec<Token> = Vec::new();
    let mut i: usize = 0;
    while i < ts.len()
        invariant
            i <= ts@.len(),
            r@.len() == i,
            forall|j: int| 0 <= j < i ==> r@[j]@ == normalize_tok(ts@[j]@, *opts),
        decreases ts@.len() - i,
    {
        let t = &ts[i];
        if matches!(t.kind, TokenKind::Keyword) && opts.uppercase_keywords && !excluded(
            &t.text,
            &opts.case_conversion_exclusions,
        ) {
            r.push(Token { kind: t.kind, text: upper_chars(&t.text), pos: t.pos });
        } else {
            r.push(copy_token(t));
        }
        i += 1;
    }
    proof {
        assert(view_toks(r@) =~= normalize_toks(view_toks(ts@), *opts));
    }
    r
}

/// Case exclusion: a token whose spelling stands in the exclusion set passes
/// through the normalizer byte-for-byte unchanged, whatever the case policy,
/// even when its spelling collides with a keyword.
pub proof fn lemma_case_exclusion(ts: Seq<GToken>, opts: FormatOptions, i: int)
    requires
        0 <= i < ts.len(),
        in_exclusions(ts[i].text, opts.case_conversion_exclusions@),
    ensures
        normalize_toks(ts, opts)[i] == ts[i],
{
}

/// The normalizer is idempotent: running it twice gives the same stream as
/// running it once.
pub proof fn lemma_normalize_idempotent(ts: Seq<GToken>, opts: FormatOptions)
    ensures
        normalize_toks(normalize_toks(ts, opts), opts) == normalize_toks(ts, opts),
{
    let a = normalize_toks(ts, opts);
    assert forall|i: int| 0 <= i < a.len() implies normalize_tok(a[i], opts) == a[i] by {
        let t = ts[i];
        if t.kind == TokenKind::Keyword && opts.uppercase_keywords && !in_exclusions(
            t.text,
            opts.case_conversion_exclusions@,
        ) {
            if !in_exclusions(upper_seq(t.text), opts.case_conversion_exclusions@) {
                assert(upper_seq(upper_seq(t.text)) =~= upper_seq(t.text));
            }
        }
    }
    assert(normalize_toks(a, opts) =~= a);
}

} // verus!
