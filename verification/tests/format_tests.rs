use sql_fmt::ElixirFormatOptions;
use sql_fmt::FormatOptions;
use sql_fmt::QueryParams;
use sql_fmt::format_with_params;

fn opts(indent: u8, upper: bool, blank: u8, ex: Vec<&str>) -> FormatOptions {
    FormatOptions {
        indent_width: indent,
        uppercase_keywords: upper,
        blank_lines_between_statements: blank,
        case_conversion_exclusions: ex.into_iter().map(|s| s.to_string()).collect(),
    }
}

#[test]
fn basic_select_formats() {
    let o = opts(2, true, 1, vec![]);
    let r = sql_fmt::format("select * from users where id = 1;", &o);
    assert_eq!(r, "SELECT *\nFROM users\nWHERE id = 1;");
}

#[test]
fn format_is_idempotent_on_samples() {
    let o = opts(2, true, 1, vec![]);
    let samples = [
        "select * from users where id = 1;",
        "select a from t1 left join t2 on t1.id = t2.id",
        "select * from (select id from t) x",
        "a < = b",
        "SELECT 1; SELECT 2;",
    ];
    for s in samples {
        let once = sql_fmt::format(s, &o);
        let twice = sql_fmt::format(&once, &o);
        assert_eq!(twice, once);
    }
}

#[test]
fn operator_integrity_le() {
    let o = opts(2, true, 1, vec![]);
    assert_eq!(sql_fmt::format("a <= b", &o), "a <= b");
    assert_eq!(sql_fmt::format("a < = b", &o), "a <= b");
}

#[test]
fn operator_integrity_other_pairs() {
    let o = opts(2, true, 1, vec![]);
    assert_eq!(sql_fmt::format("x >= y", &o), "x >= y");
    assert_eq!(sql_fmt::format("a <> b", &o), "a <> b");
    assert_eq!(sql_fmt::format("a != b", &o), "a != b");
    assert_eq!(sql_fmt::format("s || t", &o), "s || t");
}

#[test]
fn case_exclusion_keeps_spelling() {
    let o = opts(2, true, 1, vec!["from"]);
    let r = sql_fmt::format("select a from t", &o);
    assert_eq!(r, "SELECT a\nfrom t");
}

#[test]
fn case_exclusion_exact_match_only() {
    let o = opts(2, true, 1, vec!["From"]);
    let r = sql_fmt::format("select a from t", &o);
    assert_eq!(r, "SELECT a\nFROM t");
}

#[test]
fn placeholder_degradation() {
    let o = opts(2, true, 1, vec![]);
    let p = QueryParams::Indexed(vec!["'v'".to_string()]);
    let r = format_with_params("SELECT ?, ?", &p, &o);
    assert_eq!(r, "SELECT 'v', ?");
}

#[test]
fn placeholder_indexed_resolution() {
    let o = opts(2, true, 1, vec![]);
    let p = QueryParams::Indexed(vec!["'a'".to_string(), "'b'".to_string()]);
    let r = format_with_params("select ?2, ?1", &p, &o);
    assert_eq!(r, "SELECT 'b', 'a'");
}

#[test]
fn placeholder_index_out_of_range_kept() {
    let o = opts(2, true, 1, vec![]);
    let p = QueryParams::Indexed(vec!["'a'".to_string()]);
    let r = format_with_params("select ?5", &p, &o);
    assert_eq!(r, "SELECT ?5");
}

#[test]
fn placeholder_no_params_passes_through() {
    let o = opts(2, true, 1, vec![]);
    let r = format_with_params("SELECT ?", &QueryParams::NoParams, &o);
    assert_eq!(r, "SELECT ?");
}

#[test]
fn literal_protection() {
    let o = opts(2, true, 1, vec![]);
    let r = sql_fmt::format("select 'a < = b'", &o);
    assert_eq!(r, "SELECT 'a < = b'");
}

#[test]
fn literal_doubled_quote_protected() {
    let o = opts(2, true, 1, vec![]);
    let r = sql_fmt::format("select 'it''s < = here'", &o);
    assert_eq!(r, "SELECT 'it''s < = here'");
}

#[test]
fn quoted_identifier_protected() {
    let o = opts(2, true, 1, vec![]);
    let r = sql_fmt::format("select \"Weird < = Col\" from t", &o);
    assert_eq!(r, "SELECT \"Weird < = Col\"\nFROM t");
}

#[test]
fn repair_adversarial_run_terminates() {
    let o = opts(2, true, 1, vec![]);
    let input = vec!["+"; 200].join(" ");
    let r = sql_fmt::format(&input, &o);
    assert_eq!(r, "+".repeat(200));
}

#[test]
fn blank_line_control() {
    let o = opts(2, true, 2, vec![]);
    let r = sql_fmt::format("SELECT 1; SELECT 2;", &o);
    assert_eq!(r, "SELECT 1;\n\n\nSELECT 2;");
}

#[test]
fn blank_line_zero() {
    let o = opts(2, true, 0, vec![]);
    let r = sql_fmt::format("SELECT 1; SELECT 2;", &o);
    assert_eq!(r, "SELECT 1;\nSELECT 2;");
}

#[test]
fn line_comment_forces_break() {
    let o = opts(2, true, 1, vec![]);
    let r = sql_fmt::format("select a -- note\nfrom t", &o);
    assert_eq!(r, "SELECT a -- note\nFROM t");
}

#[test]
fn block_comment_preserved_verbatim() {
    let o = opts(2, true, 1, vec![]);
    let r = sql_fmt::format("select /* x < = y */ a", &o);
    assert_eq!(r, "SELECT /* x < = y */ a");
}

#[test]
fn subquery_indentation() {
    let o = opts(2, true, 1, vec![]);
    let r = sql_fmt::format("select * from (select id from t) x", &o);
    assert_eq!(r, "SELECT *\nFROM (\n  SELECT id\n  FROM t) x");
}

#[test]
fn join_stays_on_one_line() {
    let o = opts(2, true, 1, vec![]);
    let r = sql_fmt::format("select a from t1 left join t2 on t1.id = t2.id", &o);
    assert_eq!(r, "SELECT a\nFROM t1\nLEFT JOIN t2 ON t1.id = t2.id");
}

#[test]
fn unknown_glyph_passes_through() {
    let o = opts(2, true, 1, vec![]);
    let r = sql_fmt::format("select a $ b", &o);
    assert_eq!(r, "SELECT a $ b");
}

#[test]
fn empty_input_gives_empty_output() {
    let o = opts(2, true, 1, vec![]);
    assert_eq!(sql_fmt::format("", &o), "");
}

#[test]
fn keywords_kept_when_uppercasing_disabled() {
    let o = opts(2, false, 1, vec![]);
    let r = sql_fmt::format("select a from t", &o);
    assert_eq!(r, "select a\nfrom t");
}

#[test]
fn statement_resets_depth() {
    let o = opts(2, true, 1, vec![]);
    let r = sql_fmt::format("select (a); select b;", &o);
    assert_eq!(r, "SELECT (a);\n\nSELECT b;");
}

#[test]
fn elixir_options_convert() {
    let e = ElixirFormatOptions {
        indent: 4,
        uppercase: true,
        lines_between_queries: 2,
        ignore_case_convert: vec!["id", "select"],
    };
    let o = e.to_format_options();
    assert_eq!(o.indent_width, 4);
    assert!(o.uppercase_keywords);
    assert_eq!(o.blank_lines_between_statements, 2);
    assert_eq!(o.case_conversion_exclusions, vec!["id".to_string(), "select".to_string()]);
}

#[test]
fn nested_subquery_indentation() {
    let o = opts(2, true, 1, vec![]);
    let r = sql_fmt::format("select * from (select a from (select b from t) y) x", &o);
    assert_eq!(
        r,
        "SELECT *\nFROM (\n  SELECT a\n  FROM (\n    SELECT b\n    FROM t) y) x"
    );
}

#[test]
fn numeric_literal_with_dot_stays_whole() {
    let o = opts(2, true, 1, vec![]);
    let r = sql_fmt::format("select 1.5 from t", &o);
    assert_eq!(r, "SELECT 1.5\nFROM t");
}
