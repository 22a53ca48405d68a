//! The parameter binder: resolves placeholder tokens against a supplied
//! ordered list of values. A bare `?` is positional and consumes the next
//! value; `?` followed by digits is an explicit one-based index. A
//! placeholder whose index has no value is left untouched — graceful
//! degradation, never an error.

use vstd::prelude::*;

use crate::strconv::str_to_chars;
use crate::tokens::GToken;
use crate::tokens::Token;
use crate::tokens::TokenKind;
use crate::tokens::is_digit_char;
use crate::tokens::view_toks;
use crate::casing::copy_token;

verus! {

/// Numeric value of one digit character; zero for anything else.
pub open spec fn digit_of(c: char) -> nat {
    if is_digit_char(c) {
        (c as u32 - 48) as nat
    } else {
        0
    }
}

/// Value of a digit string read in base ten.
pub open spec fn digits_val(ds: Seq<char>) -> nat
    decreases ds.len(),
{
    if ds.len() == 0 {
        0
    } else {
        digits_val(ds.drop_last()) * 10 + digit_of(ds.last())
    }
}

/// A placeholder written as a bare `?`.
pub open spec fn is_positional(t: GToken) -> bool {
    t.kind == TokenKind::Placeholder && t.text.len() <= 1
}

/// What the binder does with one token, given the values and the number of
/// positional placeholders already consumed.
pub open spec fn bind_tok(t: GToken, vs: Seq<String>, n: int) -> GToken {
    if t.kind == TokenKind::Placeholder {
        if t.text.len() <= 1 {
            if 0 <= n < vs.len() {
                GToken { kind: t.kind, text: vs[n]@, pos: t.pos }
            } else {
                t
            }
        } else {
            let k = digits_val(t.text.subrange(1, t.text.len() as int));
            if 1 <= k <= vs.len() {
                GToken { kind: t.kind, text: vs[k - 1]@, pos: t.pos }
            } else {
                t
            }
        }
    } else {
        t
    }
}

/// What the binder does with the stream from position `i` on, with `n`
/// positional placeholders already consumed.
pub open spec fn bind_from(ts: Seq<GToken>, vs: Seq<String>, i: int, n: int) -> Seq<GToken>
    decreases ts.len() - i,
{
    if i < 0 || i >= ts.len() {
        Seq::empty()
    } else {
        seq![bind_tok(ts[i], vs, n)] + bind_from(
            ts,
            vs,
            i + 1,
            n + if is_positional(ts[i]) {
                1int
            } else {
                0int
            },
        )
    }
}

/// Appending one digit multiplies the value by ten and adds the digit.
proof fn lemma_digits_val_step(ds: Seq<char>, j: int)
    requires
        0 <= j < ds.len(),
    ensures
        digits_val(ds.subrange(0, j + 1)) == digits_val(ds.subrange(0, j)) * 10 + digit_of(ds[j]),
{
    let a = ds.subrange(0, j + 1);
    assert(a.drop_last() =~= ds.subrange(0, j));
    assert(a.last() == ds[j]);
}

/// Decides whether an indexed placeholder resolves, and to which zero-based
/// value slot. `m` is the number of supplied values.
fn bind_index(text: &Vec<char>, m: usize) -> (r: Option<usize>)
    requires
        text@.len() >= 1,
    ensures
        ({
            let k = digits_val(text@.subrange(1, text@.len() as int));
            match r {
                Some(j) => 1 <= k <= m && j == k - 1,
                None => !(1 <= k <= m),
            }
        }),
{
    let ghost ds = text@.subrange(1, text@.len() as int);
    let mut acc: usize = 0;
    let mut over: bool = false;
    let mut j: usize = 1;
    while j < text.len()
        invariant
            1 <= j <= text@.len(),
            ds == text@.subrange(1, text@.len() as int),
            !over ==> acc == digits_val(text@.subrange(1, j as int)) && acc <= m,
            over ==> digits_val(text@.subrange(1, j as int)) > m,
        decreases text@.len() - j,
    {
        let c = text[j];
        let d: usize = {
            let u = c as u32;
            if 48 <= u && u <= 57 {
                (u - 48) as usize
            } else {
                0
            }
        };
        proof {
            assert(d == digit_of(text@[j as int]));
            let shorter = text@.subrange(1, text@.len() as int).subrange(0, j - 1);
            assert(shorter =~= text@.subrange(1, j as int));
            let longer = text@.subrange(1, text@.len() as int).subrange(0, j as int);
            assert(longer =~= text@.subrange(1, j + 1));
            lemma_digits_val_step(text@.subrange(1, text@.len() as int), j - 1);
            assert(digits_val(text@.subrange(1, j + 1)) == digits_val(
                text@.subrange(1, j as int),
            ) * 10 + digit_of(text@[j as int]));
        }
        if over {
            proof {
                let dv = digits_val(text@.subrange(1, j as int));
                assert(digits_val(text@.subrange(1, j + 1)) == dv * 10 + d);
                assert(dv * 10 >= dv) by (nonlinear_arith)
                    requires
                        dv >= 0,
                ;
            }
        } else {
            let wide: u128 = (acc as u128) * 10 + (d as u128);
            proof {
                assert(wide == digits_val(text@.subrange(1, j + 1)));
            }
            if wide > m as u128 {
                over = true;
            } else {
                acc = wide as usize;
            }
        }
        j += 1;
    }
    proof {
        assert(text@.subrange(1, j as int) =~= ds);
    }
    if over {
        None
    } else if 1 <= acc {
        Some(acc - 1)
    } else {
        None
    }
}

/// Resolves every placeholder of the stream against the supplied values, in
/// document order. Tokens other than placeholders pass through unchanged;
/// out-of-range placeholders keep their original glyph.
pub fn bind(ts: &Vec<Token>, vs: &Vec<String>) -> (r: Vec<Token>)
    ensures
        view_toks(r@) == bind_from(view_toks(ts@), vs@, 0, 0),
{
    let ghost v = view_toks(ts@);
    let vl = vs.len();
    let mut r: Vec<Token> = Vec::new();
    let mut n: usize = 0;
    let mut i: usize = 0;
    while i < ts.len()
        invariant
            i <= ts@.len(),
            n <= i,
            v == view_toks(ts@),
            vs@.len() == vl,
            bind_from(v, vs@, 0, 0) == view_toks(r@) + bind_from(v, vs@, i as int, n as int),
        decreases ts@.len() - i,
    {
        let t = &ts[i];
        let ghost gt = v[i as int];
        let ghost bt = bind_tok(gt, vs@, n as int);
        let mut positional: bool = false;
        if matches!(t.kind, TokenKind::Placeholder) {
            if t.text.len() <= 1 {
                positional = true;
                if n < vs.len() {
                    r.push(
                        Token { kind: t.kind, text: str_to_chars(vs[n].as_str()), pos: t.pos },
                    );
                } else {
                    r.push(copy_token(t));
                }
            } else {
                match bind_index(&t.text, vs.len()) {
                    Some(slot) => {
                        r.push(
                            Token {
                                kind: t.kind,
                                text: str_to_chars(vs[slot].as_str()),
                                pos: t.pos,
                            },
                        );
                    },
                    None => {
                        r.push(copy_token(t));
                    },
                }
            }
        } else {
            r.push(copy_token(t));
        }
        proof {
            assert(r@.last()@ == bt);
            assert(bind_from(v, vs@, i as int, n as int) == seq![bt] + bind_from(
                v,
                vs@,
                i + 1,
                n + if is_positional(gt) {
                    1int
                } else {
                    0int
                },
            ));
            assert(view_toks(r@) =~= view_toks(r@.drop_last()).push(r@.last()@));
            assert(view_toks(r@.drop_last()) + (seq![bt] + bind_from(
                v,
                vs@,
                i + 1,
                n + if is_positional(gt) {
                    1int
                } else {
                    0int
                },
            )) =~= view_toks(r@.drop_last()).push(bt) + bind_from(
                v,
                vs@,
                i + 1,
                n + if is_positional(gt) {
                    1int
                } else {
                    0int
                },
            ));
            assert(positional == is_positional(gt));
        }
        if positional {
            n += 1;
        }
        i += 1;
    }
    proof {
        assert(view_toks(r@) + bind_from(v, vs@, i as int, n as int) =~= view_toks(r@));
    }
    r
}

/// With no values supplied, binding changes nothing: every placeholder
/// keeps its glyph.
pub proof fn lemma_bind_empty_identity(ts: Seq<GToken>, i: int, n: int)
    requires
        0 <= i <= ts.len(),
    ensures
        bind_from(ts, Seq::empty(), i, n) == ts.subrange(i, ts.len() as int),
    decreases ts.len() - i,
{
    if i < ts.len() {
        lemma_bind_empty_identity(
            ts,
            i + 1,
            n + if is_positional(ts[i]) {
                1int
            } else {
                0int
            },
        );
        assert(bind_tok(ts[i], Seq::empty(), n) == ts[i]);
        assert(bind_from(ts, Seq::empty(), i, n) =~= ts.subrange(i, ts.len() as int));
    } else {
        assert(bind_from(ts, Seq::empty(), i, n) =~= ts.subrange(i, ts.len() as int));
    }
}

} // verus!
