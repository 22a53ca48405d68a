//! The operator repair pass: removes the single whitespace character that
//! the layout pass leaves between two adjacent operator glyphs meant to form
//! one multi-character operator (`<` ` ` `=` becomes `<=`). The scan runs on
//! the serialized text and skips string literals, quoted identifiers and
//! comments. It iterates to a fixed point, with a hard ceiling of 63
//! passes — the documented maximum operator name length of the reference
//! dialect — and returns the best-effort text if the ceiling is reached.

use vstd::prelude::*;

use crate::casing::copy_chars;
use crate::tokens::is_op_char;
use crate::tokens::is_ws_char;
use crate::tokens::op_char;
use crate::tokens::ws_char;

verus! {

/// Region state of the repair scan.
#[derive(Clone, Copy, PartialEq, Eq, Structural, Debug)]
pub enum RState {
    /// Ordinary text: collapses may happen here.
    Norm,
    /// Inside a string literal.
    InStr,
    /// Inside a quoted identifier.
    InQuot,
    /// Inside a line comment.
    InLine,
    /// Inside a block comment.
    InBlock,
}

/// One scan of the text from position `i` in state `st`: characters are
/// copied verbatim, except that in ordinary text the whitespace of the
/// pattern "operator glyph, one whitespace character, operator glyph" is
/// dropped.
pub open spec fn repair_from(t: Seq<char>, i: int, st: RState) -> Seq<char>
    decreases t.len() - i,
{
    if i < 0 || i >= t.len() {
        Seq::empty()
    } else {
        let c = t[i];
        if st == RState::Norm {
            if c == '\'' {
                seq![c] + repair_from(t, i + 1, RState::InStr)
            } else if c == '"' {
                seq![c] + repair_from(t, i + 1, RState::InQuot)
            } else if c == '-' && i + 1 < t.len() && t[i + 1] == '-' {
                seq!['-', '-'] + repair_from(t, i + 2, RState::InLine)
            } else if c == '/' && i + 1 < t.len() && t[i + 1] == '*' {
                seq!['/', '*'] + repair_from(t, i + 2, RState::InBlock)
            } else if is_op_char(c) && i + 2 < t.len() && is_ws_char(t[i + 1]) && is_op_char(
                t[i + 2],
            ) {
                seq![c] + repair_from(t, i + 2, RState::Norm)
            } else {
                seq![c] + repair_from(t, i + 1, RState::Norm)
            }
        } else if st == RState::InStr {
            if c == '\'' {
                if i + 1 < t.len() && t[i + 1] == '\'' {
                    seq![c, c] + repair_from(t, i + 2, RState::InStr)
                } else {
                    seq![c] + repair_from(t, i + 1, RState::Norm)
                }
            } else {
                seq![c] + repair_from(t, i + 1, RState::InStr)
            }
        } else if st == RState::InQuot {
            if c == '"' {
                if i + 1 < t.len() && t[i + 1] == '"' {
                    seq![c, c] + repair_from(t, i + 2, RState::InQuot)
                } else {
                    seq![c] + repair_from(t, i + 1, RState::Norm)
                }
            } else {
                seq![c] + repair_from(t, i + 1, RState::InQuot)
            }
        } else if st == RState::InLine {
            if c == '\n' {
                seq![c] + repair_from(t, i + 1, RState::Norm)
            } else {
                seq![c] + repair_from(t, i + 1, RState::InLine)
            }
        } else {
            if c == '*' && i + 1 < t.len() && t[i + 1] == '/' {
                seq!['*', '/'] + repair_from(t, i + 2, RState::Norm)
            } else {
                seq![c] + repair_from(t, i + 1, RState::InBlock)
            }
        }
    }
}

/// One whole scan of the text.
pub open spec fn repair_once(t: Seq<char>) -> Seq<char> {
    repair_from(t, 0, RState::Norm)
}

/// The repair pass: scans repeated until a scan changes nothing, or until
/// the fuel runs out, whichever comes first.
pub open spec fn repair_full(t: Seq<char>, fuel: nat) -> Seq<char>
    decreases fuel,
{
    if fuel == 0 {
        t
    } else {
        let u = repair_once(t);
        if u == t {
            t
        } else {
            repair_full(u, (fuel - 1) as nat)
        }
    }
}

/// Compares two character vectors.
fn chars_eq(a: &Vec<char>, b: &Vec<char>) -> (r: bool)
    ensures
        r == (a@ == b@),
{
    if a.len() != b.len() {
        proof {
            if a@ == b@ {
                assert(a@.len() == b@.len());
            }
        }
        return false;
    }
    let mut i: usize = 0;
    while i < a.len()
        invariant
            i <= a@.len(),
            a@.len() == b@.len(),
            forall|j: int| 0 <= j < i ==> a@[j] == b@[j],
        decreases a@.len() - i,
    {
        if a[i] != b[i] {
            return false;
        }
        i += 1;
    }
    proof {
        assert(a@ =~= b@);
    }
    true
}

/// Runs one repair scan over the text.
pub fn repair_scan(t: &Vec<char>) -> (r: Vec<char>)
    ensures
        r@ == repair_once(t@),
{
    let n = t.len();
    let mut out: Vec<char> = Vec::new();
    let mut st = RState::Norm;
    let mut i: usize = 0;
    while i < n
        invariant
            i <= n,
            n == t@.len(),
            repair_once(t@) == out@ + repair_from(t@, i as int, st),
        decreases n - i,
    {
        let c = t[i];
        let ghost pre = out@;
        let ghost pst = st;
        let ghost pi = i as int;
        if matches!(st, RState::Norm) {
            if c == '\'' {
                out.push(c);
                st = RState::InStr;
                i += 1;
            } else if c == '"' {
                out.push(c);
                st = RState::InQuot;
                i += 1;
            } else if c == '-' && i + 1 < n && t[i + 1] == '-' {
                out.push('-');
                out.push('-');
                st = RState::InLine;
                i += 2;
            } else if c == '/' && i + 1 < n && t[i + 1] == '*' {
                out.push('/');
                out.push('*');
                st = RState::InBlock;
                i += 2;
            } else if op_char(c) && n - i > 2 && ws_char(t[i + 1]) && op_char(t[i + 2]) {
                out.push(c);
                i += 2;
            } else {
                out.push(c);
                i += 1;
            }
        } else if matches!(st, RState::InStr) {
            if c == '\'' {
                if i + 1 < n && t[i + 1] == '\'' {
                    out.push(c);
                    out.push(c);
                    i += 2;
                } else {
                    out.push(c);
                    st = RState::Norm;
                    i += 1;
                }
            } else {
                out.push(c);
                i += 1;
            }
        } else if matches!(st, RState::InQuot) {
            if c == '"' {
                if i + 1 < n && t[i + 1] == '"' {
                    out.push(c);
                    out.push(c);
                    i += 2;
                } else {
                    out.push(c);
                    st = RState::Norm;
                    i += 1;
                }
            } else {
                out.push(c);
                i += 1;
            }
        } else if matches!(st, RState::InLine) {
            out.push(c);
            if c == '\n' {
                st = RState::Norm;
            }
            i += 1;
        } else {
            if c == '*' && i + 1 < n && t[i + 1] == '/' {
                out.push('*');
                out.push('/');
                st = RState::Norm;
                i += 2;
            } else {
                out.push(c);
                i += 1;
            }
        }
        proof {
            assert(pre + repair_from(t@, pi, pst) =~= out@ + repair_from(t@, i as int, st));
        }
    }
    proof {
        assert(out@ + repair_from(t@, i as int, st) =~= out@);
    }
    out
}

/// Runs repair scans to a fixed point, stopping at the 63-pass ceiling.
pub fn repair(t: &Vec<char>) -> (r: Vec<char>)
    ensures
        r@ == repair_full(t@, 63),
{
    let mut cur = copy_chars(t);
    let mut k: usize = 0;
    let mut done: bool = false;
    while k < 63 && !done
        invariant
            k <= 63,
            done ==> repair_once(cur@) == cur@,
            repair_full(cur@, (63 - k) as nat) == repair_full(t@, 63),
        decreases 63 - k + (if done {
            0int
        } else {
            1int
        }),
    {
        let next = repair_scan(&cur);
        if chars_eq(&next, &cur) {
            done = true;
        } else {
            proof {
                assert(repair_full(cur@, (63 - k) as nat) == repair_full(
                    next@,
                    (63 - k - 1) as nat,
                ));
            }
            cur = next;
            k += 1;
        }
    }
    proof {
        if done {
            assert(repair_full(cur@, (63 - k) as nat) == cur@);
        }
    }
    cur
}

/// A text on which one scan changes nothing is a fixed point of the whole
/// pass: running the repair again returns it unchanged.
pub proof fn lemma_repair_fixpoint_stable(t: Seq<char>)
    requires
        repair_once(t) == t,
    ensures
        repair_full(t, 63) == t,
{
}

/// Inside a string literal every character up to the closing quote is
/// copied verbatim.
proof fn lemma_instr_copies(t: Seq<char>, j: int)
    requires
        0 < j < t.len(),
        t[t.len() - 1] == '\'',
        forall|k: int| j <= k < t.len() - 1 ==> t[k] != '\'',
    ensures
        repair_from(t, j, RState::InStr) == t.subrange(j, t.len() as int),
    decreases t.len() - j,
{
    if j == t.len() - 1 {
        assert(repair_from(t, t.len() as int, RState::Norm) == Seq::<char>::empty());
        assert(repair_from(t, j, RState::InStr) =~= t.subrange(j, t.len() as int));
    } else {
        lemma_instr_copies(t, j + 1);
        assert(repair_from(t, j, RState::InStr) =~= t.subrange(j, t.len() as int));
    }
}

/// Literal protection: a complete string literal passes the repair pass
/// unchanged, whatever operator glyphs and whitespace stand inside it.
pub proof fn lemma_literal_protected(body: Seq<char>)
    requires
        forall|k: int| 0 <= k < body.len() ==> body[k] != '\'',
    ensures
        repair_full(seq!['\''] + body + seq!['\''], 63) == seq!['\''] + body + seq!['\''],
{
    let t = seq!['\''] + body + seq!['\''];
    assert(t[0] == '\'');
    assert(t[t.len() - 1] == '\'');
    assert(forall|k: int| 1 <= k < t.len() - 1 ==> t[k] == body[k - 1] && t[k] != '\'');
    lemma_instr_copies(t, 1);
    assert(repair_once(t) =~= seq!['\''] + t.subrange(1, t.len() as int));
    assert(repair_once(t) =~= t);
    assert(repair_full(t, 63) == t);
}

/// Operator integrity at the repair level: for any two operator glyphs
/// separated by a single space in ordinary text, the pass removes the space
/// and leaves the two glyphs adjacent.
pub proof fn lemma_operator_pair_collapse(a: char, b: char)
    requires
        is_op_char(a),
        is_op_char(b),
    ensures
        repair_full(seq![a, ' ', b], 63) == seq![a, b],
{
    let t = seq![a, ' ', b];
    let u = seq![a, b];
    assert(repair_from(t, 3, RState::Norm) == Seq::<char>::empty());
    assert(repair_from(t, 2, RState::Norm) =~= seq![b]);
    assert(repair_once(t) =~= seq![a] + seq![b]);
    assert(repair_once(t) =~= u);
    assert(t.len() != u.len());
    assert(repair_full(t, 63) == repair_full(u, 62));
    if a == '-' && b == '-' {
        assert(repair_from(u, 2, RState::InLine) == Seq::<char>::empty());
        assert(repair_once(u) =~= seq!['-', '-'] + repair_from(u, 2, RState::InLine));
        assert(repair_once(u) =~= u);
    } else if a == '/' && b == '*' {
        assert(repair_from(u, 2, RState::InBlock) == Seq::<char>::empty());
        assert(repair_once(u) =~= seq!['/', '*'] + repair_from(u, 2, RState::InBlock));
        assert(repair_once(u) =~= u);
    } else {
        assert(repair_from(u, 2, RState::Norm) == Seq::<char>::empty());
        assert(repair_from(u, 1, RState::Norm) =~= seq![b]);
        assert(repair_once(u) =~= seq![a] + seq![b]);
        assert(repair_once(u) =~= u);
    }
    assert(repair_full(u, 62) == u);
}

/// In ordinary text, a run of word characters is copied verbatim and the
/// scan stays in the ordinary state.
pub proof fn lemma_norm_copies_words(t: Seq<char>, j: int, end: int)
    requires
        0 <= j <= end <= t.len(),
        forall|k: int| j <= k < end ==> crate::tokens::is_word_char(t[k]),
    ensures
        repair_from(t, j, RState::Norm) == t.subrange(j, end) + repair_from(t, end, RState::Norm),
    decreases end - j,
{
    if j == end {
        assert(t.subrange(j, end) + repair_from(t, end, RState::Norm) =~= repair_from(
            t,
            j,
            RState::Norm,
        ));
    } else {
        let c = t[j];
        assert(crate::tokens::is_word_char(c));
        assert(!is_op_char(c) && c != '\'' && c != '"' && c != '-' && c != '/');
        lemma_norm_copies_words(t, j + 1, end);
        assert(repair_from(t, j, RState::Norm) == seq![c] + repair_from(t, j + 1, RState::Norm));
        assert(seq![c] + (t.subrange(j + 1, end) + repair_from(t, end, RState::Norm)) =~= t.subrange(
            j,
            end,
        ) + repair_from(t, end, RState::Norm));
    }
}

/// Inside a line comment, text without a newline is copied verbatim to the
/// end of the input.
pub proof fn lemma_inline_copies(t: Seq<char>, j: int)
    requires
        0 <= j <= t.len(),
        forall|k: int| j <= k < t.len() ==> t[k] != '\n',
    ensures
        repair_from(t, j, RState::InLine) == t.subrange(j, t.len() as int),
    decreases t.len() - j,
{
    if j < t.len() {
        lemma_inline_copies(t, j + 1);
        assert(repair_from(t, j, RState::InLine) =~= t.subrange(j, t.len() as int));
    } else {
        assert(repair_from(t, j, RState::InLine) =~= t.subrange(j, t.len() as int));
    }
}

/// Inside a block comment, text without an asterisk is copied verbatim to
/// the end of the input.
pub proof fn lemma_inblock_copies(t: Seq<char>, j: int)
    requires
        0 <= j <= t.len(),
        forall|k: int| j <= k < t.len() ==> t[k] != '*',
    ensures
        repair_from(t, j, RState::InBlock) == t.subrange(j, t.len() as int),
    decreases t.len() - j,
{
    if j < t.len() {
        lemma_inblock_copies(t, j + 1);
        assert(repair_from(t, j, RState::InBlock) =~= t.subrange(j, t.len() as int));
    } else {
        assert(repair_from(t, j, RState::InBlock) =~= t.subrange(j, t.len() as int));
    }
}

/// The repair pass on a line of the shape `word SP glyph SP glyph SP word`
/// removes exactly the space between the two operator glyphs: one scan
/// collapses the pair, and the collapsed text is a fixed point of the scan,
/// also when the joined glyphs spell a comment opener.
#[verifier::rlimit(100)]
pub proof fn lemma_repair_collapses_spaced_pair(x: Seq<char>, a: char, b: char, y: Seq<char>)
    requires
        x.len() > 0,
        y.len() > 0,
        forall|k: int| 0 <= k < x.len() ==> crate::tokens::is_word_char(x[k]),
        forall|k: int| 0 <= k < y.len() ==> crate::tokens::is_word_char(y[k]),
        is_op_char(a),
        is_op_char(b),
    ensures
        repair_full(x + seq![' '] + seq![a] + seq![' '] + seq![b] + seq![' '] + y, 63) == x
            + seq![' '] + seq![a, b] + seq![' '] + y,
{
    let lx = x.len() as int;
    let l = x + seq![' '] + seq![a] + seq![' '] + seq![b] + seq![' '] + y;
    let m = x + seq![' '] + seq![a, b] + seq![' '] + y;

    // Facts about the characters of the spaced text.
    assert(l.len() == lx + 5 + y.len());
    assert(forall|k: int| 0 <= k < lx ==> l[k] == x[k]);
    assert(l[lx] == ' ' && l[lx + 1] == a && l[lx + 2] == ' ' && l[lx + 3] == b && l[lx + 4]
        == ' ');
    assert(forall|k: int| lx + 5 <= k < l.len() ==> l[k] == y[k - lx - 5]);
    assert(forall|k: int| lx + 5 <= k < l.len() ==> crate::tokens::is_word_char(l[k]));

    // One scan removes the space between the glyphs and nothing else.
    lemma_norm_copies_words(l, 0, lx);
    assert(repair_from(l, lx, RState::Norm) == seq![' '] + repair_from(
        l,
        lx + 1,
        RState::Norm,
    ));
    assert(repair_from(l, lx + 1, RState::Norm) == seq![a] + repair_from(
        l,
        lx + 3,
        RState::Norm,
    ));
    assert(repair_from(l, lx + 3, RState::Norm) == seq![b] + repair_from(
        l,
        lx + 4,
        RState::Norm,
    ));
    assert(repair_from(l, lx + 4, RState::Norm) == seq![' '] + repair_from(
        l,
        lx + 5,
        RState::Norm,
    ));
    lemma_norm_copies_words(l, lx + 5, l.len() as int);
    assert(repair_from(l, l.len() as int, RState::Norm) == Seq::<char>::empty());
    assert(repair_once(l) =~= m);

    // The collapsed text is a fixed point of the scan.
    assert(m.len() == lx + 4 + y.len());
    assert(forall|k: int| 0 <= k < lx ==> m[k] == x[k]);
    assert(m[lx] == ' ' && m[lx + 1] == a && m[lx + 2] == b && m[lx + 3] == ' ');
    assert(forall|k: int| lx + 4 <= k < m.len() ==> m[k] == y[k - lx - 4]);
    assert(forall|k: int| lx + 4 <= k < m.len() ==> crate::tokens::is_word_char(m[k]));
    lemma_norm_copies_words(m, 0, lx);
    assert(repair_from(m, lx, RState::Norm) == seq![' '] + repair_from(
        m,
        lx + 1,
        RState::Norm,
    ));
    if a == '-' && b == '-' {
        assert(repair_from(m, lx + 1, RState::Norm) == seq!['-', '-'] + repair_from(
            m,
            lx + 3,
            RState::InLine,
        ));
        assert(forall|k: int| lx + 3 <= k < m.len() ==> m[k] != '\n');
        lemma_inline_copies(m, lx + 3);
    } else if a == '/' && b == '*' {
        assert(repair_from(m, lx + 1, RState::Norm) == seq!['/', '*'] + repair_from(
            m,
            lx + 3,
            RState::InBlock,
        ));
        assert(forall|k: int| lx + 3 <= k < m.len() ==> m[k] != '*');
        lemma_inblock_copies(m, lx + 3);
    } else {
        assert(repair_from(m, lx + 1, RState::Norm) == seq![a] + repair_from(
            m,
            lx + 2,
            RState::Norm,
        ));
        assert(repair_from(m, lx + 2, RState::Norm) == seq![b] + repair_from(
            m,
            lx + 3,
            RState::Norm,
        ));
        assert(repair_from(m, lx + 3, RState::Norm) == seq![' '] + repair_from(
            m,
            lx + 4,
            RState::Norm,
        ));
        lemma_norm_copies_words(m, lx + 4, m.len() as int);
        assert(repair_from(m, m.len() as int, RState::Norm) == Seq::<char>::empty());
    }
    assert(repair_once(m) =~= m);

    // Fuel accounting: one changing scan, then the fixed point.
    assert(l.len() != m.len());
    assert(repair_full(l, 63) == repair_full(m, 62));
    assert(repair_full(m, 62) == m);
}

/// Operator integrity for a three-glyph run: the glyphs of a spaced run of
/// three operator characters end up adjacent, so operators built from
/// repeated two-glyph collapses are also repaired.
pub proof fn lemma_operator_triple_collapse(a: char, b: char, c: char)
    requires
        is_op_char(a),
        is_op_char(b),
        is_op_char(c),
    ensures
        repair_full(seq![a, ' ', b, ' ', c], 63) == seq![a, b, c],
{
    let t = seq![a, ' ', b, ' ', c];
    let u = seq![a, b, c];
    assert(repair_from(t, 5, RState::Norm) == Seq::<char>::empty());
    assert(repair_from(t, 4, RState::Norm) =~= seq![c]);
    assert(repair_from(t, 2, RState::Norm) =~= seq![b] + seq![c]);
    assert(repair_once(t) =~= seq![a] + (seq![b] + seq![c]));
    assert(repair_once(t) =~= u);
    assert(t.len() != u.len());
    assert(repair_full(t, 63) == repair_full(u, 62));
    if a == '-' && b == '-' {
        assert(repair_from(u, 3, RState::InLine) == Seq::<char>::empty());
        assert(repair_from(u, 2, RState::InLine) =~= seq![c]);
        assert(repair_once(u) =~= seq!['-', '-'] + seq![c]);
        assert(repair_once(u) =~= u);
    } else if a == '/' && b == '*' {
        assert(repair_from(u, 3, RState::InBlock) == Seq::<char>::empty());
        assert(repair_from(u, 2, RState::InBlock) =~= seq![c]);
        assert(repair_once(u) =~= seq!['/', '*'] + seq![c]);
        assert(repair_once(u) =~= u);
    } else {
        if b == '-' && c == '-' {
            assert(repair_from(u, 3, RState::InLine) == Seq::<char>::empty());
            assert(repair_from(u, 1, RState::Norm) =~= seq!['-', '-']);
        } else if b == '/' && c == '*' {
            assert(repair_from(u, 3, RState::InBlock) == Seq::<char>::empty());
            assert(repair_from(u, 1, RState::Norm) =~= seq!['/', '*']);
        } else {
            assert(repair_from(u, 3, RState::Norm) == Seq::<char>::empty());
            assert(repair_from(u, 2, RState::Norm) =~= seq![c]);
            assert(repair_from(u, 1, RState::Norm) =~= seq![b] + seq![c]);
        }
        assert(repair_once(u) =~= seq![a] + repair_from(u, 1, RState::Norm));
        assert(repair_once(u) =~= u);
    }
    assert(repair_full(u, 62) == u);
}

} // verus!
