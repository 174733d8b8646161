//! Rows of the csv input and the field lists of a struct definition.
//!
//! Besides the csv input, a second input ("big rows", typically Rust struct
//! definitions) is cut by regular expressions into lists of field names and
//! field types; each csv row names the big row whose fields it fills into the
//! template.

use vstd::prelude::*;

use crate::buffer::{append_text, builder_bytes, builder_text, empty_builder};
use crate::error::BuildError;
use crate::pattern::{compile_pattern, pattern_matches, regex_compiles, regex_is_match};
use crate::template::slice_texts;
use crate::text::{
    contains, contains_text, parse_usize, parse_usize_spec, replace_first, replace_text,
    split_pieces, split_text,
};
use vstd::utf8::{decode_utf8, valid_utf8};

verus! {

broadcast use vstd::utf8::group_utf8_lib;

/// Splits a csv row on the column delimiter; the pieces are slices of the
/// row (see [`split_pieces`]).
pub fn split_csv_row_into_vec<'a>(csv_row: &'a str, col_del: &'a str) -> (cols: Vec<&'a str>)
    ensures
        slice_texts(cols@) == split_pieces(csv_row@, col_del@),
{
    let cols = split_text(csv_row, col_del);
    assert(slice_texts(cols@) =~= split_pieces(csv_row@, col_del@));
    cols
}

/// The big-row index that column `ind` of a csv row spells: an error when
/// the row has no such column or the column is not a decimal `usize`.
pub open spec fn table_index(row: Seq<char>, col_del: Seq<char>, ind: nat) -> Result<
    nat,
    BuildError,
> {
    let cols = split_pieces(row, col_del);
    if ind >= cols.len() {
        Err(BuildError::TableColumnOutOfRange)
    } else {
        match parse_usize_spec(cols[ind as int]) {
            None => Err(BuildError::InvalidTableIndex),
            Some(v) => Ok(v),
        }
    }
}

/// [`table_index`], computed.
pub(crate) fn table_index_of_row(row: &str, col_del: &str, ind: usize) -> (r: Result<usize, BuildError>)
    ensures
        match r {
            Ok(v) => table_index(row@, col_del@, ind as nat) == Ok::<nat, BuildError>(v as nat),
            Err(e) => table_index(row@, col_del@, ind as nat) == Err::<nat, BuildError>(e),
        },
{
    let cols = split_csv_row_into_vec(row, col_del);
    if ind >= cols.len() {
        return Err(BuildError::TableColumnOutOfRange);
    }
    assert(slice_texts(cols@)[ind as int] == cols@[ind as int]@);
    match parse_usize(cols[ind]) {
        None => Err(BuildError::InvalidTableIndex),
        Some(v) => Ok(v),
    }
}

/// The `usize` spelled by column `ind` of a csv row. The row must have that
/// column and the column must spell a `usize` (see [`table_index`]).
pub fn get_usize_of_col_with_col_index_of_row(row: &str, col_del: &str, ind: usize) -> (v: usize)
    requires
        table_index(row@, col_del@, ind as nat) is Ok,
    ensures
        v as nat == table_index(row@, col_del@, ind as nat)->Ok_0,
{
    table_index_of_row(row, col_del, ind).unwrap()
}

/// The text that takes the place of `%COLS%`.
pub open spec fn names_part(col_1: Seq<char>, is_last_row: bool) -> Seq<char> {
    if is_last_row {
        col_1
    } else {
        col_1 + ", %COLS%"@
    }
}

/// The text that takes the place of `%COL_PLACEMENTS%`.
pub open spec fn placements_part(is_last_row: bool) -> Seq<char> {
    if is_last_row {
        "{}"@
    } else {
        "{}"@ + ", %COL_PLACEMENTS%"@
    }
}

/// The text that takes the place of `%OBJ_COLS%`: the expression that reads
/// field `col_1`, of type `col_2`, from `obj`.
pub open spec fn object_part(col_1: Seq<char>, col_2: Seq<char>, is_last_row: bool) -> Seq<char> {
    let optional = contains(col_2, "Option"@);
    let array = contains(col_2, "Vec"@);
    let map = contains(col_2, "HashMap"@);
    (if optional {
        "deserialize_option("@
    } else {
        "deserialize_(&"@
    }) + (if array {
        "\nformat!(\"{:?}\","@
    } else if map {
        "unwrap_hashmap_into_string(&"@
    } else {
        Seq::empty()
    }) + "obj."@ + col_1 + (if optional {
        ".as_ref()"@
    } else {
        Seq::empty()
    }) + (if array {
        ").replacen(r\"[\", \"{\", 3000)"@ + ".replacen(r\"]\", \"}\", 3000)"@
    } else if map {
        ")"@
    } else {
        Seq::empty()
    }) + ")"@ + (if is_last_row {
        Seq::empty()
    } else {
        ", %OBJ_COLS%"@
    })
}

/// The template with the field `col_1` of type `col_2` filled in: the first
/// thousand occurrences of each of `%COLS%`, `%COL_PLACEMENTS%` and
/// `%OBJ_COLS%`, in that order, are replaced by their parts. Outside struct
/// mode the result is empty.
pub open spec fn filled_template(
    col_1: Seq<char>,
    col_2: Seq<char>,
    template: Seq<char>,
    is_struct: bool,
    is_last_row: bool,
) -> Seq<char> {
    if !is_struct {
        Seq::empty()
    } else {
        let t1 = replace_first(template, "%COLS%"@, names_part(col_1, is_last_row), 1000);
        let t2 = replace_first(t1, "%COL_PLACEMENTS%"@, placements_part(is_last_row), 1000);
        replace_first(t2, "%OBJ_COLS%"@, object_part(col_1, col_2, is_last_row), 1000)
    }
}

/// Fills field `col_1`, of type `col_2`, into the template; see
/// [`filled_template`].
pub fn modify_template_based_on_row(
    col_1: String,
    col_2: String,
    template: &str,
    is_struct: bool,
    is_last_row: bool,
) -> (r: String)
    ensures
        r@ == filled_template(col_1@, col_2@, template@, is_struct, is_last_row),
{
    if !is_struct {
        return String::new();
    }
    let mut builder = empty_builder();
    append_text(&mut builder, col_1.as_str());
    if !is_last_row {
        append_text(&mut builder, ", %COLS%");
    }
    let names = builder_text(builder);
    assert(names@ =~= names_part(col_1@, is_last_row));
    let t1 = replace_text(template, "%COLS%", names.as_str(), Some(1000));
    let mut builder = empty_builder();
    append_text(&mut builder, "{}");
    if !is_last_row {
        append_text(&mut builder, ", %COL_PLACEMENTS%");
    }
    let placements = builder_text(builder);
    assert(placements@ =~= placements_part(is_last_row));
    let t2 = replace_text(t1.as_str(), "%COL_PLACEMENTS%", placements.as_str(), Some(1000));
    let optional = contains_text(col_2.as_str(), "Option");
    let array = contains_text(col_2.as_str(), "Vec");
    let map = contains_text(col_2.as_str(), "HashMap");
    let mut builder = empty_builder();
    if optional {
        append_text(&mut builder, "deserialize_option(");
    } else {
        append_text(&mut builder, "deserialize_(&");
    }
    let ghost opening = decode_utf8(builder_bytes(builder));
    if array {
        append_text(&mut builder, "\nformat!(\"{:?}\",");
    } else if map {
        append_text(&mut builder, "unwrap_hashmap_into_string(&");
    }
    let ghost wrapped = decode_utf8(builder_bytes(builder));
    append_text(&mut builder, "obj.");
    append_text(&mut builder, col_1.as_str());
    if optional {
        append_text(&mut builder, ".as_ref()");
    }
    let ghost read = decode_utf8(builder_bytes(builder));
    if array {
        append_text(&mut builder, ").replacen(r\"[\", \"{\", 3000)");
        append_text(&mut builder, ".replacen(r\"]\", \"}\", 3000)");
    } else if map {
        append_text(&mut builder, ")");
    }
    let ghost closed = decode_utf8(builder_bytes(builder));
    append_text(&mut builder, ")");
    if !is_last_row {
        append_text(&mut builder, ", %OBJ_COLS%");
    }
    let object = builder_text(builder);
    proof {
        let empty = Seq::<char>::empty();
        assert(wrapped =~= opening + (if array {
            "\nformat!(\"{:?}\","@
        } else if map {
            "unwrap_hashmap_into_string(&"@
        } else {
            empty
        }));
        assert(read =~= wrapped + "obj."@ + col_1@ + (if optional {
            ".as_ref()"@
        } else {
            empty
        }));
        assert(closed =~= read + (if array {
            ").replacen(r\"[\", \"{\", 3000)"@ + ".replacen(r\"]\", \"}\", 3000)"@
        } else if map {
            ")"@
        } else {
            empty
        }));
        assert(object@ =~= closed + ")"@ + (if is_last_row {
            empty
        } else {
            ", %OBJ_COLS%"@
        }));
        assert(object@ =~= object_part(col_1@, col_2@, is_last_row));
    }
    replace_text(t2.as_str(), "%OBJ_COLS%", object.as_str(), Some(1000))
}

/// Indices, prepended to those a later step gives.
pub open spec fn prepend_indices(front: Seq<usize>, r: Result<Seq<usize>, BuildError>) -> Result<
    Seq<usize>,
    BuildError,
> {
    match r {
        Err(e) => Err(e),
        Ok(rest) => Ok(front + rest),
    }
}

/// Whether the csv row whose columns are `cols` maps to `input_row`: its
/// column number `mapping`, read as a regular expression, matches the input
/// row. Counting columns in an `i16` fails when the mapped column is absent
/// and the row has more than `i16::MAX` columns.
pub open spec fn row_maps_to(cols: Seq<Seq<char>>, mapping: int, input_row: Seq<char>) -> Result<
    bool,
    BuildError,
> {
    if 0 <= mapping < cols.len() {
        if !regex_compiles(cols[mapping]) {
            Err(BuildError::InvalidColumnPattern)
        } else {
            Ok(regex_is_match(cols[mapping], input_row))
        }
    } else if cols.len() > 32767 {
        Err(BuildError::ColumnCounterOverflow)
    } else {
        Ok(false)
    }
}

/// The positions, counted from `first`, of the csv rows that map to
/// `input_row`.
pub open spec fn mapped_rows(
    csv_rows: Seq<Seq<char>>,
    input_row: Seq<char>,
    mapping: int,
    col_del: Seq<char>,
    first: nat,
) -> Result<Seq<usize>, BuildError>
    decreases csv_rows.len(),
{
    if csv_rows.len() == 0 {
        Ok(Seq::empty())
    } else {
        match row_maps_to(split_pieces(csv_rows[0], col_del), mapping, input_row) {
            Err(e) => Err(e),
            Ok(hit) => prepend_indices(
                if hit {
                    seq![first as usize]
                } else {
                    Seq::empty()
                },
                mapped_rows(csv_rows.drop_first(), input_row, mapping, col_del, first + 1),
            ),
        }
    }
}

/// [`row_maps_to`], computed.
fn maps_to(cols: &Vec<&str>, mapping: i16, input_row: &str) -> (r: Result<bool, BuildError>)
    ensures
        r == row_maps_to(slice_texts(cols@), mapping as int, input_row@),
{
    if 0 <= mapping && (mapping as usize) < cols.len() {
        let col = cols[mapping as usize];
        assert(slice_texts(cols@)[mapping as int] == col@);
        let mut builder = empty_builder();
        append_text(&mut builder, col);
        let text = builder_text(builder);
        assert(text@ =~= col@);
        match compile_pattern(text.as_str()) {
            Err(_) => Err(BuildError::InvalidColumnPattern),
            Ok(re) => Ok(pattern_matches(&re, input_row)),
        }
    } else if cols.len() > 32767 {
        Err(BuildError::ColumnCounterOverflow)
    } else {
        Ok(false)
    }
}

/// [`mapped_rows`] from the first csv row on.
fn mapped_row_indices(csv_rows: &Vec<&str>, input_row: &str, csv_col_mapping: i16, col_del: &str) -> (r:
    Result<Vec<usize>, BuildError>)
    ensures
        match r {
            Ok(v) => mapped_rows(slice_texts(csv_rows@), input_row@, csv_col_mapping as int, col_del@, 0)
                == Ok::<Seq<usize>, BuildError>(v@),
            Err(e) => mapped_rows(slice_texts(csv_rows@), input_row@, csv_col_mapping as int, col_del@, 0)
                == Err::<Seq<usize>, BuildError>(e),
        },
{
    let ghost all = slice_texts(csv_rows@);
    let ghost want = mapped_rows(all, input_row@, csv_col_mapping as int, col_del@, 0);
    let mut indices: Vec<usize> = Vec::new();
    let mut val: usize = 0;
    assert(all.skip(0) =~= all);
    assert(prepend_indices(indices@, want) =~= want);
    while val < csv_rows.len()
        invariant
            all == slice_texts(csv_rows@),
            want == mapped_rows(all, input_row@, csv_col_mapping as int, col_del@, 0),
            0 <= val <= csv_rows.len(),
            want == prepend_indices(
                indices@,
                mapped_rows(
                    all.skip(val as int),
                    input_row@,
                    csv_col_mapping as int,
                    col_del@,
                    val as nat,
                ),
            ),
        decreases csv_rows.len() - val,
    {
        let ghost rest = all.skip(val as int);
        assert(rest[0] == csv_rows@[val as int]@);
        assert(rest.drop_first() =~= all.skip(val + 1));
        let cols = split_csv_row_into_vec(csv_rows[val], col_del);
        match maps_to(&cols, csv_col_mapping, input_row) {
            Err(e) => {
                return Err(e);
            },
            Ok(hit) => {
                let ghost before = indices@;
                if hit {
                    indices.push(val);
                }
                proof {
                    let later = mapped_rows(
                        all.skip(val + 1),
                        input_row@,
                        csv_col_mapping as int,
                        col_del@,
                        (val + 1) as nat,
                    );
                    match later {
                        Err(e) => {},
                        Ok(more) => {
                            if hit {
                                assert(before + (seq![val] + more) =~= indices@ + more);
                            } else {
                                assert(before + (Seq::<usize>::empty() + more) =~= indices@ + more);
                            }
                        },
                    }
                }
            },
        }
        val = val + 1;
    }
    assert(all.skip(val as int) =~= Seq::<Seq<char>>::empty());
    assert(indices@ + Seq::<usize>::empty() =~= indices@);
    Ok(indices)
}

/// The positions of the csv rows whose column number `csv_col_mapping`, read
/// as a regular expression, matches `input_row`; see [`mapped_rows`]. The
/// inputs on which this fails are left out;
/// [`try_retrieve_csv_row_indices_by_col_mapping_and_row`] takes every input.
pub fn retrieve_csv_row_indices_by_col_mapping_and_row(
    csv_rows: &Vec<&str>,
    input_row: &str,
    csv_col_mapping: i16,
    col_del: &str,
    is_verbose: bool,
) -> (r: Vec<usize>)
    requires
        mapped_rows(slice_texts(csv_rows@), input_row@, csv_col_mapping as int, col_del@, 0) is Ok,
    ensures
        r@ == mapped_rows(slice_texts(csv_rows@), input_row@, csv_col_mapping as int, col_del@, 0)->Ok_0,
{
    mapped_row_indices(csv_rows, input_row, csv_col_mapping, col_del).unwrap()
}

/// [`retrieve_csv_row_indices_by_col_mapping_and_row`] for every input: the
/// error of [`mapped_rows`] where the mapping fails.
pub fn try_retrieve_csv_row_indices_by_col_mapping_and_row(
    csv_rows: &Vec<&str>,
    input_row: &str,
    csv_col_mapping: i16,
    col_del: &str,
    is_verbose: bool,
) -> (r: Result<Vec<usize>, BuildError>)
    ensures
        match r {
            Ok(v) => mapped_rows(slice_texts(csv_rows@), input_row@, csv_col_mapping as int, col_del@, 0)
                == Ok::<Seq<usize>, BuildError>(v@),
            Err(e) => mapped_rows(slice_texts(csv_rows@), input_row@, csv_col_mapping as int, col_del@, 0)
                == Err::<Seq<usize>, BuildError>(e),
        },
{
    mapped_row_indices(csv_rows, input_row, csv_col_mapping, col_del)
}

} // verus!
