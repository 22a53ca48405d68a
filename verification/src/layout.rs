//! The layout engine: walks the token stream and emits the formatted text.
//! Clause-boundary keywords start a new line at the current nesting depth,
//! parentheses drive the depth, statement terminators reset it and insert
//! the configured count of blank lines, and a line comment forces a break.
//! Whitespace tokens of the input are discarded: the layout alone decides
//! spacing.

use vstd::prelude::*;

use crate::FormatOptions;
use crate::tokens::GToken;
use crate::tokens::Token;
use crate::tokens::TokenKind;
use crate::tokens::is_boundary_kw;
use crate::tokens::is_join_modifier;
use crate::tokens::upper_seq;
use crate::tokens::view_toks;
use crate::tokens::boundary_kw;
use crate::tokens::join_modifier;
use crate::casing::upper_chars;
use crate::casing::in_exclusions;
use crate::casing::lemma_case_exclusion;
use crate::casing::normalize_toks;

verus! {

/// What separates the token about to be emitted from what stands before it.
#[derive(Clone, Copy, PartialEq, Eq, Structural, Debug)]
pub enum Pend {
    /// Nothing has been emitted yet.
    AtStart,
    /// No separator: the previous token was an opening parenthesis.
    Tight,
    /// A single space.
    Gap,
    /// A line break: the previous token was a line comment.
    Line,
    /// A statement boundary: the previous token was a terminator.
    Stmt,
}

/// `w` spaces.
pub open spec fn spaces(w: nat) -> Seq<char> {
    Seq::new(w, |i: int| ' ')
}

/// `n` newline characters.
pub open spec fn newlines(n: nat) -> Seq<char> {
    Seq::new(n, |i: int| '\n')
}

/// Indentation for nesting depth `d` at `w` spaces per level.
pub open spec fn indent(d: nat, w: nat) -> Seq<char>
    decreases d,
{
    if d == 0 {
        Seq::empty()
    } else {
        spaces(w) + indent((d - 1) as nat, w)
    }
}

/// A one-character punctuation token equal to `c`.
pub open spec fn text_is_char(t: GToken, c: char) -> bool {
    t.kind == TokenKind::Punct && t.text == seq![c]
}

/// Tokens that attach directly to what precedes them, with no space.
pub open spec fn attaches(t: GToken) -> bool {
    text_is_char(t, ')') || text_is_char(t, ',') || text_is_char(t, ';') || text_is_char(t, '.')
}

/// Whether a line break is due before `t`. `pm` records that the previously
/// emitted token was a join modifier, which keeps `LEFT OUTER JOIN` whole.
pub open spec fn breaks_before(t: GToken, pm: bool) -> bool {
    t.kind == TokenKind::Keyword && is_boundary_kw(upper_seq(t.text)) && !pm
}

/// The separator emitted before a token, given the pending state `p`, the
/// break decision `brk`, the attachment decision `att`, and the depth whose
/// indentation a fresh line receives.
pub open spec fn sep_text(
    p: Pend,
    brk: bool,
    att: bool,
    depth: nat,
    opts: FormatOptions,
) -> Seq<char> {
    if p == Pend::AtStart {
        Seq::empty()
    } else if p == Pend::Stmt {
        newlines(1 + opts.blank_lines_between_statements as nat) + indent(
            depth,
            opts.indent_width as nat,
        )
    } else if p == Pend::Line {
        seq!['\n'] + indent(depth, opts.indent_width as nat)
    } else if brk {
        seq!['\n'] + indent(depth, opts.indent_width as nat)
    } else if att {
        Seq::empty()
    } else if p == Pend::Tight {
        Seq::empty()
    } else {
        seq![' ']
    }
}

/// Pending separator after emitting `t`.
pub open spec fn next_pend(t: GToken) -> Pend {
    if text_is_char(t, ';') {
        Pend::Stmt
    } else if t.kind == TokenKind::LineComment {
        Pend::Line
    } else if text_is_char(t, '(') || text_is_char(t, '.') {
        Pend::Tight
    } else {
        Pend::Gap
    }
}

/// Whether `t` is a join modifier keyword.
pub open spec fn next_pm(t: GToken) -> bool {
    t.kind == TokenKind::Keyword && is_join_modifier(upper_seq(t.text))
}

/// Depth used for the indentation in front of `t`.
pub open spec fn depth_before(t: GToken, depth: nat) -> nat {
    if text_is_char(t, ')') {
        if depth > 0 {
            (depth - 1) as nat
        } else {
            0
        }
    } else {
        depth
    }
}

/// Depth in force after emitting `t`, starting from `depth_before`.
pub open spec fn depth_after(t: GToken, d1: nat) -> nat {
    if text_is_char(t, '(') {
        d1 + 1
    } else if text_is_char(t, ';') {
        0
    } else {
        d1
    }
}

/// The formatted text of the stream from token `i` on.
pub open spec fn layout_from(
    ts: Seq<GToken>,
    opts: FormatOptions,
    i: int,
    depth: nat,
    p: Pend,
    pm: bool,
) -> Seq<char>
    decreases ts.len() - i,
{
    if i < 0 || i >= ts.len() {
        Seq::empty()
    } else {
        let t = ts[i];
        if t.kind == TokenKind::Whitespace {
            layout_from(ts, opts, i + 1, depth, p, pm)
        } else {
            let d1 = depth_before(t, depth);
            sep_text(p, breaks_before(t, pm), attaches(t), d1, opts) + t.text + layout_from(
                ts,
                opts,
                i + 1,
                depth_after(t, d1),
                next_pend(t),
                next_pm(t),
            )
        }
    }
}

/// The formatted text of a whole stream.
pub open spec fn spec_layout(ts: Seq<GToken>, opts: FormatOptions) -> Seq<char> {
    layout_from(ts, opts, 0, 0, Pend::AtStart, false)
}

// ---------------------------------------------------------------------------
// Executable emission
// ---------------------------------------------------------------------------

/// Appends the characters of `v` to `out`.
fn emit_chars(out: &mut Vec<char>, v: &Vec<char>)
    ensures
        final(out)@ == old(out)@ + v@,
{
    let mut i: usize = 0;
    while i < v.len()
        invariant
            i <= v@.len(),
            out@ =~= old(out)@ + v@.subrange(0, i as int),
        decreases v@.len() - i,
    {
        out.push(v[i]);
        proof {
            assert(old(out)@ + v@.subrange(0, i + 1) =~= (old(out)@ + v@.subrange(
                0,
                i as int,
            )).push(v@[i as int]));
        }
        i += 1;
    }
    proof {
        assert(out@ =~= old(out)@ + v@);
    }
}

/// Appends `n` newline characters.
fn emit_newlines(out: &mut Vec<char>, n: usize)
    ensures
        final(out)@ == old(out)@ + newlines(n as nat),
{
    let mut k: usize = 0;
    while k < n
        invariant
            k <= n,
            out@ =~= old(out)@ + newlines(k as nat),
        decreases n - k,
    {
        out.push('\n');
        proof {
            assert(old(out)@ + newlines((k + 1) as nat) =~= (old(out)@ + newlines(k as nat)).push(
                '\n',
            ));
        }
        k += 1;
    }
}

/// Appends the indentation of depth `d` at `w` spaces per level.
fn emit_indent(out: &mut Vec<char>, d: usize, w: u8)
    ensures
        final(out)@ == old(out)@ + indent(d as nat, w as nat),
{
    let mut j: usize = 0;
    while j < d
        invariant
            j <= d,
            old(out)@ + indent(d as nat, w as nat) =~= out@ + indent((d - j) as nat, w as nat),
        decreases d - j,
    {
        let ghost before = out@;
        let wu: usize = w as usize;
        let mut k: usize = 0;
        while k < wu
            invariant
                k <= wu,
                out@ =~= before + Seq::new(k as nat, |x: int| ' '),
            decreases wu - k,
        {
            out.push(' ');
            proof {
                assert(before + Seq::new((k + 1) as nat, |x: int| ' ') =~= (before + Seq::new(
                    k as nat,
                    |x: int| ' ',
                )).push(' '));
            }
            k += 1;
        }
        proof {
            assert(out@ =~= before + spaces(w as nat));
            assert(indent((d - j) as nat, w as nat) == spaces(w as nat) + indent(
                (d - j - 1) as nat,
                w as nat,
            ));
            assert(before + (spaces(w as nat) + indent((d - j - 1) as nat, w as nat)) =~= (before
                + spaces(w as nat)) + indent((d - j - 1) as nat, w as nat));
        }
        j += 1;
    }
    proof {
        assert(out@ + indent(0, w as nat) =~= out@);
    }
}

/// Appends the separator that `sep_text` prescribes.
fn emit_sep(out: &mut Vec<char>, p: Pend, brk: bool, att: bool, depth: usize, opts: &FormatOptions)
    ensures
        final(out)@ == old(out)@ + sep_text(p, brk, att, depth as nat, *opts),
{
    if p == Pend::AtStart {
    } else if p == Pend::Stmt {
        let n = 1 + opts.blank_lines_between_statements as usize;
        emit_newlines(out, n);
        emit_indent(out, depth, opts.indent_width);
        proof {
            assert(out@ =~= old(out)@ + (newlines(n as nat) + indent(
                depth as nat,
                opts.indent_width as nat,
            )));
        }
    } else if p == Pend::Line || brk {
        out.push('\n');
        let ghost mid = out@;
        proof {
            assert(mid =~= old(out)@ + seq!['\n']);
        }
        emit_indent(out, depth, opts.indent_width);
        proof {
            assert(out@ =~= old(out)@ + (seq!['\n'] + indent(
                depth as nat,
                opts.indent_width as nat,
            )));
        }
    } else if att || p == Pend::Tight {
        proof {
            assert(out@ =~= old(out)@ + Seq::<char>::empty());
        }
    } else {
        out.push(' ');
        proof {
            assert(out@ =~= old(out)@ + seq![' ']);
        }
    }
}

/// Decides whether a token is the one-character punctuation `c`.
fn text_is(t: &Token, c: char) -> (b: bool)
    ensures
        b == text_is_char(t@, c),
{
    if !matches!(t.kind, TokenKind::Punct) {
        return false;
    }
    if t.text.len() != 1 {
        proof {
            if t@.text == seq![c] {
                assert(t@.text.len() == 1);
            }
        }
        return false;
    }
    let e = t.text[0] == c;
    proof {
        if e {
            assert(t.text@ =~= seq![c]);
        } else {
            if t.text@ == seq![c] {
                assert(t.text@[0] == c);
            }
        }
    }
    e
}

/// Lays the token stream out as formatted text.
#[verifier::rlimit(80)]
pub fn layout(ts: &Vec<Token>, opts: &FormatOptions) -> (r: Vec<char>)
    ensures
        r@ == spec_layout(view_toks(ts@), *opts),
{
    let ghost v = view_toks(ts@);
    let mut out: Vec<char> = Vec::new();
    let mut depth: usize = 0;
    let mut p = Pend::AtStart;
    let mut pm: bool = false;
    let mut i: usize = 0;
    while i < ts.len()
        invariant
            i <= ts@.len(),
            depth <= i,
            v == view_toks(ts@),
            spec_layout(v, *opts) == out@ + layout_from(
                v,
                *opts,
                i as int,
                depth as nat,
                p,
                pm,
            ),
        decreases ts@.len() - i,
    {
        let t = &ts[i];
        let ghost gt = v[i as int];
        proof {
            assert(gt == t@);
        }
        if matches!(t.kind, TokenKind::Whitespace) {
            proof {
                assert(layout_from(v, *opts, i as int, depth as nat, p, pm) == layout_from(
                    v,
                    *opts,
                    i + 1,
                    depth as nat,
                    p,
                    pm,
                ));
            }
        } else {
            let brk: bool = if matches!(t.kind, TokenKind::Keyword) {
                let up = upper_chars(&t.text);
                boundary_kw(&up) && !pm
            } else {
                false
            };
            let att: bool = text_is(t, ')') || text_is(t, ',') || text_is(t, ';') || text_is(
                t,
                '.',
            );
            let d1: usize = if text_is(t, ')') {
                if depth > 0 {
                    depth - 1
                } else {
                    0
                }
            } else {
                depth
            };
            proof {
                assert(brk == breaks_before(gt, pm));
                assert(att == attaches(gt));
                assert(d1 as nat == depth_before(gt, depth as nat));
            }
            let ghost before = out@;
            emit_sep(&mut out, p, brk, att, d1, opts);
            emit_chars(&mut out, &t.text);
            let d2: usize = if text_is(t, '(') {
                d1 + 1
            } else if text_is(t, ';') {
                0
            } else {
                d1
            };
            let np: Pend = if text_is(t, ';') {
                Pend::Stmt
            } else if matches!(t.kind, TokenKind::LineComment) {
                Pend::Line
            } else if text_is(t, '(') || text_is(t, '.') {
                Pend::Tight
            } else {
                Pend::Gap
            };
            let npm: bool = if matches!(t.kind, TokenKind::Keyword) {
                let up = upper_chars(&t.text);
                join_modifier(&up)
            } else {
                false
            };
            proof {
                assert(d2 as nat == depth_after(gt, d1 as nat));
                assert(np == next_pend(gt));
                assert(npm == next_pm(gt));
                assert(layout_from(v, *opts, i as int, depth as nat, p, pm) == sep_text(
                    p,
                    breaks_before(gt, pm),
                    attaches(gt),
                    d1 as nat,
                    *opts,
                ) + gt.text + layout_from(v, *opts, i + 1, d2 as nat, np, npm));
                assert(before + (sep_text(p, breaks_before(gt, pm), attaches(gt), d1 as nat, *opts)
                    + gt.text + layout_from(v, *opts, i + 1, d2 as nat, np, npm)) =~= out@
                    + layout_from(v, *opts, i + 1, d2 as nat, np, npm));
            }
            depth = d2;
            p = np;
            pm = npm;
        }
        i += 1;
    }
    proof {
        assert(out@ + layout_from(v, *opts, i as int, depth as nat, p, pm) =~= out@);
    }
    out
}

/// `needle` occurs in `hay` at offset `off`.
pub open spec fn contains_at(hay: Seq<char>, off: int, needle: Seq<char>) -> bool {
    0 <= off && off + needle.len() <= hay.len() && hay.subrange(off, off + needle.len()) == needle
}

/// Every non-whitespace token's text appears verbatim and contiguously in
/// the laid-out text.
pub proof fn lemma_layout_preserves_token_text(
    ts: Seq<GToken>,
    opts: FormatOptions,
    i: int,
    depth: nat,
    p: Pend,
    pm: bool,
    k: int,
)
    requires
        0 <= i <= k < ts.len(),
        ts[k].kind != TokenKind::Whitespace,
    ensures
        exists|off: int| contains_at(layout_from(ts, opts, i, depth, p, pm), off, ts[k].text),
    decreases k - i,
{
    let t = ts[i];
    let full = layout_from(ts, opts, i, depth, p, pm);
    if t.kind == TokenKind::Whitespace {
        lemma_layout_preserves_token_text(ts, opts, i + 1, depth, p, pm, k);
        assert(full == layout_from(ts, opts, i + 1, depth, p, pm));
    } else {
        let d1 = depth_before(t, depth);
        let sep = sep_text(p, breaks_before(t, pm), attaches(t), d1, opts);
        let rest = layout_from(ts, opts, i + 1, depth_after(t, d1), next_pend(t), next_pm(t));
        assert(full == sep + t.text + rest);
        if k == i {
            let off = sep.len() as int;
            assert(full.subrange(off, off + t.text.len() as int) =~= t.text);
            assert(contains_at(full, off, ts[k].text));
        } else {
            lemma_layout_preserves_token_text(
                ts,
                opts,
                i + 1,
                depth_after(t, d1),
                next_pend(t),
                next_pm(t),
                k,
            );
            let off0 = choose|o: int| contains_at(rest, o, ts[k].text);
            let off = sep.len() + t.text.len() + off0;
            assert(full.subrange(off, off + ts[k].text.len() as int) =~= rest.subrange(
                off0,
                off0 + ts[k].text.len() as int,
            ));
            assert(contains_at(full, off, ts[k].text));
        }
    }
}

/// Case exclusion through the layout: an excluded token's spelling appears
/// verbatim and contiguously in the laid-out text of the normalized stream,
/// whatever the case policy.
pub proof fn lemma_excluded_text_in_layout(ts: Seq<GToken>, opts: FormatOptions, k: int)
    requires
        0 <= k < ts.len(),
        ts[k].kind != TokenKind::Whitespace,
        in_exclusions(ts[k].text, opts.case_conversion_exclusions@),
    ensures
        exists|off: int|
            contains_at(spec_layout(normalize_toks(ts, opts), opts), off, ts[k].text),
{
    lemma_case_exclusion(ts, opts, k);
    let nts = normalize_toks(ts, opts);
    lemma_layout_preserves_token_text(nts, opts, 0, 0, Pend::AtStart, false, k);
    let w = choose|o: int|
        contains_at(layout_from(nts, opts, 0, 0, Pend::AtStart, false), o, nts[k].text);
    assert(contains_at(spec_layout(nts, opts), w, ts[k].text));
}

} // verus!
