use puf_builder::buildre::{
    retrieve_2_col_lists_from_rows_within_row, start_buildre, try_retrieve_2_col_lists_from_rows_within_row,
    try_start_buildre,
};
use puf_builder::error::BuildError;
use puf_builder::records::{
    get_usize_of_col_with_col_index_of_row, modify_template_based_on_row,
    retrieve_csv_row_indices_by_col_mapping_and_row, split_csv_row_into_vec,
    try_retrieve_csv_row_indices_by_col_mapping_and_row,
};

const BIG_ROW: &str = r"pub[\s]+struct[\s]+[\w]{1,}[\s]+\{[\w\s\d:;<>,]+";

#[test]
fn split_keeps_empty_pieces() {
    assert_eq!(split_csv_row_into_vec("a,b,,c", ","), vec!["a", "b", "", "c"]);
    assert_eq!(split_csv_row_into_vec("", ","), vec![""]);
    assert_eq!(split_csv_row_into_vec("a::b:::c", "::"), vec!["a", "b", ":c"]);
}

#[test]
fn split_on_empty_delimiter() {
    assert_eq!(split_csv_row_into_vec("ab", ""), vec!["", "a", "b", ""]);
    assert_eq!(split_csv_row_into_vec("", ""), vec!["", ""]);
}

#[test]
fn column_number_is_parsed() {
    assert_eq!(get_usize_of_col_with_col_index_of_row("x,42,y", ",", 1), 42);
    assert_eq!(get_usize_of_col_with_col_index_of_row("+7", ",", 0), 7);
    assert_eq!(
        get_usize_of_col_with_col_index_of_row("18446744073709551615", ",", 0),
        18446744073709551615
    );
}

#[test]
fn struct_field_is_filled_in() {
    let t = "(%COLS%) [%COL_PLACEMENTS%] {%OBJ_COLS%}";
    let out = modify_template_based_on_row("id".to_string(), "i32".to_string(), t, true, false);
    assert_eq!(
        out,
        "(id, %COLS%) [{}, %COL_PLACEMENTS%] {deserialize_(&obj.id), %OBJ_COLS%}"
    );
    let out = modify_template_based_on_row(
        "name".to_string(),
        "Option<String>".to_string(),
        &out,
        true,
        true,
    );
    assert_eq!(
        out,
        "(id, name) [{}, {}] {deserialize_(&obj.id), deserialize_option(obj.name.as_ref())}"
    );
}

#[test]
fn array_and_map_fields() {
    let out = modify_template_based_on_row("v".to_string(), "Vec<u8>".to_string(), "%OBJ_COLS%", true, true);
    assert_eq!(
        out,
        "deserialize_(&\nformat!(\"{:?}\",obj.v).replacen(r\"[\", \"{\", 3000).replacen(r\"]\", \"}\", 3000))"
    );
    let out = modify_template_based_on_row(
        "m".to_string(),
        "HashMap<String,String>".to_string(),
        "%OBJ_COLS%",
        true,
        true,
    );
    assert_eq!(out, "deserialize_(&unwrap_hashmap_into_string(&obj.m))");
}

#[test]
fn outside_struct_mode_the_template_is_emptied() {
    let out = modify_template_based_on_row("id".to_string(), "i32".to_string(), "%COLS%", false, true);
    assert_eq!(out, "");
}

#[test]
fn csv_rows_mapped_by_column_pattern() {
    let rows = vec!["x,a.c", "y,zzz", "z"];
    assert_eq!(retrieve_csv_row_indices_by_col_mapping_and_row(&rows, "abc", 1, ",", false), vec![0]);
    assert_eq!(
        try_retrieve_csv_row_indices_by_col_mapping_and_row(&rows, "zzz", -1, ",", false),
        Ok(vec![])
    );
    let bad = vec!["x,("];
    assert_eq!(
        try_retrieve_csv_row_indices_by_col_mapping_and_row(&bad, "abc", 1, ",", false),
        Err(BuildError::InvalidColumnPattern)
    );
}

#[test]
fn struct_fields_are_listed() {
    let row = "pub struct A {\n pub id: i32,\n pub name: Option<String>,\n";
    let (names, types) = try_retrieve_2_col_lists_from_rows_within_row(
        row,
        r"[\w\s\d,:\{<>--[\r\n\t]]{1,}(?:,)",
        r"(Option<HashMap<String,Option<String>>>)|(String)|([_a-zA-Z0-9<>]+)",
        1,
        2,
        false,
    )
    .unwrap();
    assert_eq!(names, vec!["id".to_string(), "name".to_string()]);
    assert_eq!(types, vec!["i32".to_string(), "Option<String>".to_string()]);
}

#[test]
fn field_index_past_columns_is_an_error() {
    let r = try_retrieve_2_col_lists_from_rows_within_row("a=b", "[a-z=]+", "[a-z]+", 0, 5, false);
    assert_eq!(r, Err(BuildError::ColumnIndexOutOfRange));
    let r = try_retrieve_2_col_lists_from_rows_within_row("a", "[a-z=]+", "[a-z]+", 0, 1, false);
    assert_eq!(r, Ok((vec![], vec![])));
}

#[test]
fn verbose_does_not_change_field_lists() {
    for row in ["a", "a=b c", "x=y"] {
        let quiet = try_retrieve_2_col_lists_from_rows_within_row(row, "[a-z= ]+", "[a-z]+", 0, 1, false);
        let loud = try_retrieve_2_col_lists_from_rows_within_row(row, "[a-z= ]+", "[a-z]+", 0, 1, true);
        assert_eq!(quiet, loud);
    }
}

fn struct_build(input: &str, regexable: &str, template: &str) -> Result<String, BuildError> {
    try_start_buildre(
        input, "\n", ",", "??", false, regexable, 0, 1, BIG_ROW, "", "", true,
        template.to_string(), false, -1, false, vec![], vec![], 0, "", "", "",
    )
    .map(|b| b.string().unwrap())
}

#[test]
fn struct_fields_fill_a_statement() {
    let regexable = "pub struct A {\n pub id: i32,\n pub name: Option<String>,\n}";
    let template = "INSERT INTO t (%COLS%) VALUES (%COL_PLACEMENTS%); // %OBJ_COLS% ??2";
    let out = struct_build("0,alice", regexable, template);
    assert_eq!(
        out,
        Ok("INSERT INTO t (id, name) VALUES ({}, {}); // deserialize_(&obj.id), deserialize_option(obj.name.as_ref()) alice\n".to_string())
    );
    let b = start_buildre(
        "0,alice", "\n", ",", "??", false, regexable, 0, 1, BIG_ROW, "", "", true,
        template.to_string(), false, -1, false, vec![], vec![1], 0, "", "", "",
    );
    assert_eq!(
        b.string().unwrap(),
        "INSERT INTO t (id, %COLS%) VALUES ({}, %COL_PLACEMENTS%); // deserialize_(&obj.id), %OBJ_COLS% alice\n"
    );
}

#[test]
fn missing_big_rows_is_an_error() {
    assert_eq!(struct_build("0,a", "nothing here", "x"), Err(BuildError::NoBigRows));
}

#[test]
fn big_and_csv_row_counts_must_agree() {
    let regexable = "pub struct A {\n pub id: i32,\n}";
    assert_eq!(struct_build("0,a\n0,b", regexable, "x"), Err(BuildError::RowCountMismatch));
}

#[test]
fn csv_row_must_name_an_existing_big_row() {
    let regexable = "pub struct A {\n pub id: i32,\n}";
    assert_eq!(struct_build("1,a", regexable, "x"), Err(BuildError::TableIndexOutOfRange));
    assert_eq!(struct_build("one,a", regexable, "x"), Err(BuildError::InvalidTableIndex));
}

#[test]
fn mapped_rows_come_in_increasing_order() {
    let rows = vec!["0,s.*", "1,zz", "2,st", "3,x"];
    let found = try_retrieve_csv_row_indices_by_col_mapping_and_row(&rows, "struct", 1, ",", false).unwrap();
    assert_eq!(found, vec![0, 2]);
    assert!(found.windows(2).all(|w| w[0] < w[1]));
    assert!(found.iter().all(|&i| i < rows.len()));
}

#[test]
fn skipped_big_rows_are_left_out_one_by_one() {
    let regexable = "pub struct A {\n pub id: i32,\n}\npub struct B {\n pub name: String,\n}\npub struct C {\n pub age: u8,\n}";
    let build = |skip: Vec<usize>, input: &str| {
        try_start_buildre(
            input, "\n", ",", "??", false, regexable, 0, 1, BIG_ROW, "", "", true,
            "%COLS%".to_string(), false, -1, true, skip, vec![], 0, "", "", "",
        )
        .map(|b| b.string().unwrap())
    };
    assert_eq!(build(vec![0], "0,x"), Ok("name\n".to_string()));
    assert_eq!(build(vec![0], "1,x"), Ok("age\n".to_string()));
    assert_eq!(build(vec![1], "1,x"), Ok("age\n".to_string()));
    assert_eq!(build(vec![], "2,x"), Ok("age\n".to_string()));
}

#[test]
fn successive_field_fills_join_each_placeholder() {
    let fields = [("id", "i32"), ("tags", "Vec<String>"), ("note", "Option<String>")];
    let mut t = "INSERT INTO t (%COLS%) VALUES (%COL_PLACEMENTS%); %OBJ_COLS%".to_string();
    for (i, (name, ty)) in fields.iter().enumerate() {
        t = modify_template_based_on_row(name.to_string(), ty.to_string(), &t, true, i == fields.len() - 1);
    }
    let objs: Vec<String> = fields
        .iter()
        .map(|(name, ty)| modify_template_based_on_row(name.to_string(), ty.to_string(), "%OBJ_COLS%", true, true))
        .collect();
    assert_eq!(
        t,
        format!("INSERT INTO t (id, tags, note) VALUES ({{}}, {{}}, {{}}); {}", objs.join(", "))
    );
}

#[test]
fn plain_field_lists() {
    let (names, types) = retrieve_2_col_lists_from_rows_within_row("a=b;c=d", "[a-z=]+", "[a-z]+", 0, 1, false);
    assert_eq!(names, vec!["a".to_string(), "c".to_string()]);
    assert_eq!(types, vec!["b".to_string(), "d".to_string()]);
}

#[test]
fn repeated_placeholders_in_any_order_are_all_filled() {
    let fields = [("id", "i32"), ("name", "String")];
    let mut t = "%OBJ_COLS%; (%COLS%) [%COLS%] <%COL_PLACEMENTS%> %OBJ_COLS%".to_string();
    for (i, (name, ty)) in fields.iter().enumerate() {
        t = modify_template_based_on_row(name.to_string(), ty.to_string(), &t, true, i == fields.len() - 1);
    }
    let objs = "deserialize_(&obj.id), deserialize_(&obj.name)";
    assert_eq!(t, format!("{}; (id, name) [id, name] <{{}}, {{}}> {}", objs, objs));
}
