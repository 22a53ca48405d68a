//! A SQL text formatter: tokenizes SQL source, normalizes keyword case,
//! resolves `?`-style parameter placeholders, lays the tokens out with
//! clause-based indentation, and repairs multi-character operators that
//! the layout pass split apart.

use vstd::prelude::*;

pub mod binder;
pub mod casing;
pub mod layout;
pub mod repair;
pub mod strconv;
pub mod tokenizer;
pub mod tokens;

verus! {

/// Style options for one formatting call. Immutable for the duration of the
/// call; no state is carried across calls.
pub struct FormatOptions {
    /// Spaces of indentation per nesting level.
    pub indent_width: u8,
    /// Rewrite recognized keywords to upper case.
    pub uppercase_keywords: bool,
    /// Blank lines emitted between consecutive top-level statements.
    pub blank_lines_between_statements: u8,
    /// Identifier spellings (compared case-sensitively) that are never
    /// case-converted.
    pub case_conversion_exclusions: Vec<String>,
}

/// Parameter values for placeholder substitution.
pub enum QueryParams {
    /// No substitution: placeholders pass through as written.
    NoParams,
    /// Values bound by position or one-based index to placeholder tokens.
    Indexed(Vec<String>),
}

/// The option record as a host runtime hands it over, before conversion to
/// [`FormatOptions`]. The field names follow the host's conventions.
pub struct ElixirFormatOptions<'a> {
    pub indent: u8,
    pub uppercase: bool,
    pub lines_between_queries: u8,
    pub ignore_case_convert: Vec<&'a str>,
}

/// The formatted text of `s` under `opts`, with placeholders resolved
/// against `params`: the composition of tokenization, case normalization,
/// parameter binding, layout and the operator repair pass.
pub open spec fn spec_format(s: Seq<char>, params: QueryParams, opts: FormatOptions) -> Seq<char> {
    let toks = tokenizer::spec_tokenize(s, 0);
    let cased = casing::normalize_toks(toks, opts);
    let bound = match params {
        QueryParams::NoParams => cased,
        QueryParams::Indexed(vs) => binder::bind_from(cased, vs@, 0, 0),
    };
    repair::repair_full(layout::spec_layout(bound, opts), 63)
}

/// Formats SQL text with placeholder substitution. Total: malformed SQL is
/// formatted best-effort, an out-of-range placeholder keeps its glyph, and
/// the repair ceiling bounds the final pass.
pub fn format_with_params(sql_text: &str, params: &QueryParams, options: &FormatOptions) -> (r:
    String)
    ensures
        r@ == spec_format(sql_text@, *params, *options),
{
    let cs = strconv::str_to_chars(sql_text);
    let toks = tokenizer::tokenize(&cs);
    let cased = casing::normalize(&toks, options);
    let bound = match params {
        QueryParams::NoParams => cased,
        QueryParams::Indexed(vs) => binder::bind(&cased, vs),
    };
    let text = layout::layout(&bound, options);
    let fixed = repair::repair(&text);
    strconv::chars_to_string(&fixed)
}

/// Formats SQL text with no parameter substitution: placeholder glyphs pass
/// through as written.
pub fn format(sql_text: &str, options: &FormatOptions) -> (r: String)
    ensures
        r@ == spec_format(sql_text@, QueryParams::NoParams, *options),
{
    format_with_params(sql_text, &QueryParams::NoParams, options)
}

/// Operator integrity through the pipeline: a stream of an identifier, two
/// operator glyphs and an identifier — what the tokenizer produces for a
/// query holding a two-glyph operator, however the input spaced the glyphs —
/// lays out and repairs to text in which the two glyphs stand adjacent,
/// with no whitespace between them.
pub proof fn lemma_operator_integrity(
    tx: tokens::GToken,
    ta: tokens::GToken,
    tb: tokens::GToken,
    ty: tokens::GToken,
    opts: FormatOptions,
)
    requires
        tx.kind == tokens::TokenKind::Identifier,
        ty.kind == tokens::TokenKind::Identifier,
        tx.text.len() > 0,
        ty.text.len() > 0,
        forall|k: int| 0 <= k < tx.text.len() ==> tokens::is_word_char(tx.text[k]),
        forall|k: int| 0 <= k < ty.text.len() ==> tokens::is_word_char(ty.text[k]),
        ta.kind == tokens::TokenKind::Operator,
        tb.kind == tokens::TokenKind::Operator,
        ta.text.len() == 1,
        tb.text.len() == 1,
        tokens::is_op_char(ta.text[0]),
        tokens::is_op_char(tb.text[0]),
    ensures
        repair::repair_full(layout::spec_layout(seq![tx, ta, tb, ty], opts), 63) == tx.text
            + seq![' '] + seq![ta.text[0], tb.text[0]] + seq![' '] + ty.text,
{
    let a = ta.text[0];
    let b = tb.text[0];
    let ts = seq![tx, ta, tb, ty];
    let l = tx.text + seq![' '] + seq![a] + seq![' '] + seq![b] + seq![' '] + ty.text;

    // The laid-out text: the four texts joined by single spaces.
    assert(ta.text =~= seq![a]);
    assert(tb.text =~= seq![b]);
    assert(layout::layout_from(ts, opts, 4, 0, layout::Pend::Gap, false)
        == Seq::<char>::empty());
    assert(layout::layout_from(ts, opts, 3, 0, layout::Pend::Gap, false) =~= seq![' ']
        + ty.text);
    assert(layout::layout_from(ts, opts, 2, 0, layout::Pend::Gap, false) =~= seq![' ']
        + tb.text + (seq![' '] + ty.text));
    assert(layout::layout_from(ts, opts, 1, 0, layout::Pend::Gap, false) =~= seq![' ']
        + ta.text + (seq![' '] + tb.text + (seq![' '] + ty.text)));
    assert(layout::spec_layout(ts, opts) =~= l);

    repair::lemma_repair_collapses_spaced_pair(tx.text, a, b, ty.text);
}

/// Operator integrity end to end: a query made of an identifier, two
/// operator glyphs and an identifier, with whitespace runs between them of
/// any width, formats to the two glyphs standing adjacent between the
/// identifiers, with no whitespace inside the operator — whatever spacing
/// the input had around the glyphs.
#[verifier::rlimit(100)]
pub proof fn lemma_format_operator_integrity(
    x: Seq<char>,
    w1: Seq<char>,
    a: char,
    w2: Seq<char>,
    b: char,
    w3: Seq<char>,
    y: Seq<char>,
    opts: FormatOptions,
)
    requires
        x.len() > 0,
        y.len() > 0,
        forall|k: int| 0 <= k < x.len() ==> tokens::is_word_char(x[k]),
        forall|k: int| 0 <= k < y.len() ==> tokens::is_word_char(y[k]),
        tokens::is_word_start(x[0]),
        tokens::is_word_start(y[0]),
        !tokens::is_keyword(tokens::upper_seq(x)),
        !tokens::is_keyword(tokens::upper_seq(y)),
        w1.len() > 0,
        w2.len() > 0,
        w3.len() > 0,
        forall|k: int| 0 <= k < w1.len() ==> tokens::is_ws_char(w1[k]),
        forall|k: int| 0 <= k < w2.len() ==> tokens::is_ws_char(w2[k]),
        forall|k: int| 0 <= k < w3.len() ==> tokens::is_ws_char(w3[k]),
        tokens::is_op_char(a),
        a != '?',
        tokens::is_op_char(b),
        b != '?',
    ensures
        spec_format(x + w1 + seq![a] + w2 + seq![b] + w3 + y, QueryParams::NoParams, opts) == x
            + seq![' '] + seq![a, b] + seq![' '] + y,
{
    let u = x + w1 + seq![a] + w2 + seq![b] + w3 + y;
    let pa = x.len() + w1.len();
    let pb = pa + 1 + w2.len();
    let py = pb + 1 + w3.len();
    tokenizer::lemma_tokenize_spaced_pair(x, w1, a, w2, b, w3, y);
    let ts = seq![
        tokens::GToken { kind: tokens::TokenKind::Identifier, text: x, pos: 0 },
        tokens::GToken { kind: tokens::TokenKind::Whitespace, text: w1, pos: x.len() as int },
        tokens::GToken { kind: tokens::TokenKind::Operator, text: seq![a], pos: pa as int },
        tokens::GToken { kind: tokens::TokenKind::Whitespace, text: w2, pos: pa + 1 as int },
        tokens::GToken { kind: tokens::TokenKind::Operator, text: seq![b], pos: pb as int },
        tokens::GToken { kind: tokens::TokenKind::Whitespace, text: w3, pos: pb + 1 as int },
        tokens::GToken { kind: tokens::TokenKind::Identifier, text: y, pos: py as int },
    ];
    assert(tokenizer::spec_tokenize(u, 0) == ts);

    // No token of the stream is a keyword, so the case pass changes nothing.
    assert(forall|i: int|
        0 <= i < ts.len() ==> casing::normalize_tok(ts[i], opts) == ts[i]);
    assert(casing::normalize_toks(ts, opts) =~= ts);

    // The layout drops the whitespace tokens and joins the rest with single
    // spaces.
    let l = x + seq![' '] + seq![a] + seq![' '] + seq![b] + seq![' '] + y;
    assert(layout::layout_from(ts, opts, 7, 0, layout::Pend::Gap, false)
        == Seq::<char>::empty());
    assert(layout::layout_from(ts, opts, 6, 0, layout::Pend::Gap, false) =~= seq![' '] + y);
    assert(layout::layout_from(ts, opts, 5, 0, layout::Pend::Gap, false)
        == layout::layout_from(ts, opts, 6, 0, layout::Pend::Gap, false));
    assert(layout::layout_from(ts, opts, 4, 0, layout::Pend::Gap, false) =~= seq![' ']
        + seq![b] + (seq![' '] + y));
    assert(layout::layout_from(ts, opts, 3, 0, layout::Pend::Gap, false)
        == layout::layout_from(ts, opts, 4, 0, layout::Pend::Gap, false));
    assert(layout::layout_from(ts, opts, 2, 0, layout::Pend::Gap, false) =~= seq![' ']
        + seq![a] + (seq![' '] + seq![b] + (seq![' '] + y)));
    assert(layout::layout_from(ts, opts, 1, 0, layout::Pend::Gap, false)
        == layout::layout_from(ts, opts, 2, 0, layout::Pend::Gap, false));
    assert(layout::spec_layout(ts, opts) =~= l);

    // The repair pass closes the gap inside the operator and nothing else.
    repair::lemma_repair_collapses_spaced_pair(x, a, b, y);
}

impl<'a> ElixirFormatOptions<'a> {
    /// Converts the host-facing record into the engine's option struct.
    pub fn to_format_options(&self) -> (r: FormatOptions)
        ensures
            r.indent_width == self.indent,
            r.uppercase_keywords == self.uppercase,
            r.blank_lines_between_statements == self.lines_between_queries,
            r.case_conversion_exclusions@.len() == self.ignore_case_convert@.len(),
            forall|i: int|
                0 <= i < self.ignore_case_convert@.len()
                    ==> r.case_conversion_exclusions@[i]@ == self.ignore_case_convert@[i]@,
    {
        let mut ex: Vec<String> = Vec::new();
        let mut i: usize = 0;
        while i < self.ignore_case_convert.len()
            invariant
                i <= self.ignore_case_convert@.len(),
                ex@.len() == i,
                forall|j: int| 0 <= j < i ==> ex@[j]@ == self.ignore_case_convert@[j]@,
            decreases self.ignore_case_convert@.len() - i,
        {
            ex.push(self.ignore_case_convert[i].to_owned());
            i += 1;
        }
        FormatOptions {
            indent_width: self.indent,
            uppercase_keywords: self.uppercase,
            blank_lines_between_statements: self.lines_between_queries,
            case_conversion_exclusions: ex,
        }
    }
}

} // verus!
