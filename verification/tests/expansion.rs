use puf_builder::error::BuildError;
use puf_builder::template::{
    buildOutput, buildOutputFromEntry, omit_cols_by_re, omit_rows_by_re,
    replace_token_in_template, try_build_output, try_build_output_from_entry, try_omit_cols_by_re,
    try_omit_rows_by_re, try_replace_token_in_template,
};

#[test]
fn plain_token_is_replaced_everywhere() {
    let r = try_replace_token_in_template("???", 1, "Hello ???1, ???1!".to_string(), "World", false);
    assert_eq!(r, Ok("Hello World, World!".to_string()));
}

#[test]
fn higher_column_number_is_not_a_prefix_match_of_lower() {
    let r = try_replace_token_in_template("$$", 1, "a=$$1 b=$$2".to_string(), "X", false);
    assert_eq!(r, Ok("a=X b=$$2".to_string()));
}

#[test]
fn qualified_token_takes_capture_a() {
    let r = try_replace_token_in_template(
        "TOK",
        1,
        "x TOK1<<regex:(?P<a>\\d+)>> y".to_string(),
        "abc123",
        false,
    );
    assert_eq!(r, Ok("x 123 y".to_string()));
}

#[test]
fn qualified_token_without_match_takes_whole_column() {
    let r = try_replace_token_in_template(
        "TOK",
        1,
        "x TOK1<<regex:(?P<a>\\d+)>> y".to_string(),
        "abc",
        false,
    );
    assert_eq!(r, Ok("x abc y".to_string()));
}

#[test]
fn qualified_token_without_group_a_is_an_error() {
    let r = try_replace_token_in_template(
        "TOK",
        1,
        "x TOK1<<regex:(\\d+)>> y".to_string(),
        "abc123",
        false,
    );
    assert_eq!(r, Err(BuildError::MissingCaptureGroup));
}

#[test]
fn qualified_token_with_invalid_regex_is_an_error() {
    let r = try_replace_token_in_template(
        "TOK",
        1,
        "x TOK1<<regex:(?P<a>\\d+>> y".to_string(),
        "abc123",
        false,
    );
    assert_eq!(r, Err(BuildError::InvalidQualifierRegex));
}

#[test]
fn entry_columns_are_numbered_from_one() {
    let mut template = "<??1|??2|??3>".to_string();
    let out = buildOutputFromEntry("a,b,c".to_string(), &mut template, ",", "??", false, false, "");
    assert_eq!(out, "<a|b|c>");
    assert_eq!(template, "<a|b|c>");
}

#[test]
fn entry_with_omission_blanks_matched_columns_in_place() {
    let mut template = "[??1][??2][??3]".to_string();
    let r = try_build_output_from_entry(
        "skip,a,b".to_string(),
        &mut template,
        ",",
        "??",
        false,
        false,
        "^skip$",
    );
    assert_eq!(r, Ok("[][a][b]".to_string()));
    assert_eq!(template, "[][a][b]");
    let mut template = "@1 @2".to_string();
    let out = buildOutputFromEntry("a,b".to_string(), &mut template, ",", "@", false, false, "zzz");
    assert_eq!(out, "a b");
    assert_eq!(template, "a b");
}

#[test]
fn entry_with_bad_omission_pattern_leaves_template() {
    let mut template = "??1".to_string();
    let r = try_build_output_from_entry("a".to_string(), &mut template, ",", "??", false, false, "(");
    assert_eq!(r, Err(BuildError::InvalidOmitColumnPattern));
    assert_eq!(template, "??1");
}

#[test]
fn omit_columns_blanks_matches_and_numbers_the_rest() {
    let cols = vec!["x1".to_string(), "keep".to_string(), "x2".to_string(), "also".to_string()];
    let r = try_omit_cols_by_re("^x", "<??1|??2|??3>".to_string(), cols, "??", false, false);
    let (text, kept) = r.unwrap();
    assert_eq!(text, "<|keep|>");
    assert_eq!(kept, vec!["".to_string(), "keep".to_string(), "".to_string(), "also".to_string()]);
    let cols = vec!["keep".to_string(), "also".to_string()];
    let (text, _) = try_omit_cols_by_re("^x", "<??1>".to_string(), cols, "??", false, false).unwrap();
    assert_eq!(text, "<keep>");
}

#[test]
fn omit_rows_keeps_unmatched_in_order() {
    let rows = vec!["#comment", "a,b", "# more", "c,d"];
    assert_eq!(try_omit_rows_by_re("^#", rows), Ok(vec!["a,b", "c,d"]));
    assert_eq!(try_omit_rows_by_re("[", vec!["a"]), Err(BuildError::InvalidOmitRowPattern));
}

#[test]
fn build_output_concatenates_rows() {
    let input = "a,b\nc,d".to_string();
    let out = buildOutput(&input, "<??1-??2>".to_string(), ",", "\n", "??", false, false, "", "");
    assert_eq!(out, "<a-b><c-d>");
}

#[test]
fn build_output_omits_rows() {
    let input = "a,b\n#c,d\ne,f".to_string();
    let r = try_build_output(&input, "(??1)".to_string(), ",", "\n", "??", false, false, "", "^#");
    assert_eq!(r, Ok("(a)(e)".to_string()));
}

#[test]
fn build_output_trims_token_line_ends() {
    let input = "a".to_string();
    // Carriage returns are trimmed first, then line feeds.
    let r = try_build_output(&input, "[%1]".to_string(), ",", "\n", "%\n\r", true, false, "", "");
    assert_eq!(r, Ok("[a]".to_string()));
    let r = try_build_output(&input, "[%1]".to_string(), ",", "\n", "%\r\n", true, false, "", "");
    assert_eq!(r, Ok("[%1]".to_string()));
    let r = try_build_output(&input, "[%\r\n1]".to_string(), ",", "\n", "%\r\n", false, false, "", "");
    assert_eq!(r, Ok("[a]".to_string()));
}

#[test]
fn build_output_reports_bad_row_pattern() {
    let input = "a".to_string();
    let r = try_build_output(&input, "x".to_string(), ",", "\n", "??", false, false, "", "(");
    assert_eq!(r, Err(BuildError::InvalidOmitRowPattern));
}

#[test]
fn empty_row_delimiter_splits_every_character() {
    let input = "ab".to_string();
    let r = try_build_output(&input, "[??1]".to_string(), ",", "", "??", false, false, "", "");
    assert_eq!(r, Ok("[][a][b][]".to_string()));
}

#[test]
fn build_of_joined_rows_is_concatenation_of_row_builds() {
    let template = "[??1|??2]".to_string();
    let whole = try_build_output(&"a,b\nc,d\ne".to_string(), template.clone(), ",", "\n", "??", false, false, "", "");
    let first = try_build_output(&"a,b".to_string(), template.clone(), ",", "\n", "??", false, false, "", "");
    let rest = try_build_output(&"c,d\ne".to_string(), template.clone(), ",", "\n", "??", false, false, "", "");
    assert_eq!(whole, Ok("[a|b][c|d][e|??2]".to_string()));
    assert_eq!(whole, Ok(first.unwrap() + &rest.unwrap()));
    let two = try_build_output(&"a,b\nc,d".to_string(), template.clone(), ",", "\n", "??", false, false, "", "");
    let last = try_build_output(&"e".to_string(), template, ",", "\n", "??", false, false, "", "");
    assert_eq!(whole, Ok(two.unwrap() + &last.unwrap()));
}

#[test]
fn omission_keeps_column_count_and_places() {
    let cols = vec!["drop".to_string(), "a".to_string(), "dropped".to_string()];
    let (_, kept) = try_omit_cols_by_re("^drop", "??0".to_string(), cols.clone(), "??", false, false).unwrap();
    assert_eq!(kept.len(), cols.len());
    assert_eq!(kept, vec!["".to_string(), "a".to_string(), "".to_string()]);
}

#[test]
fn token_numbers_are_matched_whole() {
    let input = "a,b,c,d,e,f,g,h,i,j".to_string();
    let out = buildOutput(&input, "@10".to_string(), ",", "\n", "@", false, false, "", "");
    assert_eq!(out, "j");
    let out = buildOutput(&input, "@1|@10|@12".to_string(), ",", "\n", "@", false, false, "", "");
    assert_eq!(out, "a|j|@12");
}

#[test]
fn omission_matching_nothing_changes_nothing() {
    let input = "a,b".to_string();
    let with = buildOutput(&input, "@1 @2".to_string(), ",", "\n", "@", false, false, "zzz", "");
    let without = buildOutput(&input, "@1 @2".to_string(), ",", "\n", "@", false, false, "", "");
    assert_eq!(with, "a b");
    assert_eq!(with, without);
}

#[test]
fn build_is_rows_built_alone_and_concatenated() {
    let input = "a,b\n#skip\nc,d";
    let t = "<??2:??1>".to_string();
    let build = |s: &str| try_build_output(&s.to_string(), t.clone(), ",", "\n", "??", false, false, "", "^#").unwrap();
    let alone: String = input.split('\n').map(|row| build(row)).collect();
    assert_eq!(build(input), alone);
    assert_eq!(alone, "<b:a><d:c>");
}

#[test]
fn plain_forms_give_the_successful_results() {
    assert_eq!(replace_token_in_template("@", 2, "@1-@2".to_string(), "x", false), "@1-x");
    let (text, kept) = omit_cols_by_re("^-$", "@1@2".to_string(), vec!["-".to_string(), "a".to_string()], "@", false, false);
    assert_eq!(text, "a");
    assert_eq!(kept, vec!["".to_string(), "a".to_string()]);
    assert_eq!(omit_rows_by_re("^#", vec!["#x", "y"]), vec!["y"]);
}

#[test]
fn omitted_columns_keep_their_numbers() {
    let out = buildOutput(&"xb".to_string(), "[@1]".to_string(), ",", "\n", "@", false, false, "x", "");
    assert_eq!(out, "[]");
    let out = buildOutput(&"xa,b".to_string(), "@1 @2".to_string(), ",", "\n", "@", false, false, "x", "");
    assert_eq!(out, " b");
}
