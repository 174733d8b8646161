//! The two-input build: csv rows filled with the fields of big rows.
//!
//! Big rows are found in one input by a regular expression and each is cut
//! into a list of field names and a list of field types. Each csv row of the
//! other input names a big row by the number in one of its columns; the row's
//! own columns are expanded in the template, then the big row's fields are
//! filled in one after the other, and the result ends with a line feed.

use string_builder::Builder;
use vstd::prelude::*;

use crate::buffer::{append_text, builder_bytes, empty_builder};
use crate::error::BuildError;
use crate::pattern::{
    CompiledPattern, compile_pattern, find_spans, regex_compiles, regex_find_spans,
};
use crate::records::{filled_template, modify_template_based_on_row, table_index, table_index_of_row};
use crate::template::{
    entry_outcome, expand_entry, filter_unmatched, omit_rows, prepend_text, slice_texts, texts,
    text_result, unmatched,
};
use crate::text::{byte_range, on_boundary, slice_bytes, split_pieces, split_text};
use vstd::utf8::{decode_utf8, encode_utf8, valid_utf8};

verus! {

broadcast use vstd::utf8::group_utf8_lib;

/// The texts of the byte spans of `h`, in order.
pub open spec fn span_texts(h: Seq<char>, spans: Seq<(usize, usize)>) -> Seq<Seq<char>> {
    Seq::new(spans.len(), |k: int| byte_range(h, spans[k].0 as int, spans[k].1 as int))
}

/// The non-empty texts, in order.
pub open spec fn nonempty(ts: Seq<Seq<char>>) -> Seq<Seq<char>>
    decreases ts.len(),
{
    if ts.len() == 0 {
        Seq::empty()
    } else {
        (if ts[0].len() > 0 {
            seq![ts[0]]
        } else {
            Seq::empty()
        }) + nonempty(ts.drop_first())
    }
}

/// `x` is one of the listed indices.
pub open spec fn listed(v: Seq<usize>, x: int) -> bool {
    exists|k: int| 0 <= k < v.len() && v[k] as int == x
}

/// Two lists, in front of the lists a later step gives.
pub open spec fn prepend_lists(
    names: Seq<Seq<char>>,
    types: Seq<Seq<char>>,
    r: Result<(Seq<Seq<char>>, Seq<Seq<char>>), BuildError>,
) -> Result<(Seq<Seq<char>>, Seq<Seq<char>>), BuildError> {
    match r {
        Err(e) => Err(e),
        Ok((x, y)) => Ok((names + x, types + y)),
    }
}

/// The columns of a fragment: the non-empty matches of the column pattern.
pub open spec fn fragment_columns(col_pattern: Seq<char>, fragment: Seq<char>) -> Seq<Seq<char>> {
    nonempty(span_texts(fragment, regex_find_spans(col_pattern, fragment)))
}

/// Field names (column `index_1`) and types (column `index_2`) of the
/// fragments that have more than one column; a fragment with fewer columns
/// adds nothing, and an index past the columns of a fragment is an error.
pub open spec fn field_lists(
    fragments: Seq<Seq<char>>,
    col_pattern: Seq<char>,
    index_1: nat,
    index_2: nat,
) -> Result<(Seq<Seq<char>>, Seq<Seq<char>>), BuildError>
    decreases fragments.len(),
{
    if fragments.len() == 0 {
        Ok((Seq::empty(), Seq::empty()))
    } else {
        let cols = fragment_columns(col_pattern, fragments[0]);
        let rest = field_lists(fragments.drop_first(), col_pattern, index_1, index_2);
        if cols.len() > 1 {
            if index_1 < cols.len() && index_2 < cols.len() {
                prepend_lists(seq![cols[index_1 as int]], seq![cols[index_2 as int]], rest)
            } else {
                Err(BuildError::ColumnIndexOutOfRange)
            }
        } else {
            rest
        }
    }
}

/// The field names and types of one big row: its fragments are the matches
/// of `split_row_by`, their columns the non-empty matches of `split_col_by`.
pub open spec fn column_lists(
    row: Seq<char>,
    split_row_by: Seq<char>,
    split_col_by: Seq<char>,
    index_1: nat,
    index_2: nat,
) -> Result<(Seq<Seq<char>>, Seq<Seq<char>>), BuildError> {
    if !regex_compiles(split_row_by) {
        Err(BuildError::InvalidRowSplitPattern)
    } else if !regex_compiles(split_col_by) {
        Err(BuildError::InvalidColumnSplitPattern)
    } else {
        field_lists(
            span_texts(row, regex_find_spans(split_row_by, row)),
            split_col_by,
            index_1,
            index_2,
        )
    }
}

/// The non-empty texts of the matches of `re` in `h`, as owned strings.
fn nonempty_matches(re: &CompiledPattern, h: &str) -> (v: Vec<String>)
    ensures
        texts(v@) == nonempty(span_texts(h@, regex_find_spans(re@, h@))),
{
    let spans = find_spans(re, h);
    let ghost all = span_texts(h@, spans@);
    let mut v: Vec<String> = Vec::new();
    let mut k: usize = 0;
    assert(all.skip(0) =~= all);
    assert(texts(v@) =~= Seq::<Seq<char>>::empty());
    while k < spans.len()
        invariant
            all == span_texts(h@, spans@),
            spans@ == regex_find_spans(re@, h@),
            forall|j: int|
                0 <= j < spans@.len() ==> {
                    &&& (#[trigger] spans@[j]).0 <= spans@[j].1
                    &&& on_boundary(h@, spans@[j].0 as int)
                    &&& on_boundary(h@, spans@[j].1 as int)
                },
            0 <= k <= spans.len(),
            nonempty(all) == texts(v@) + nonempty(all.skip(k as int)),
        decreases spans.len() - k,
    {
        let (a, b) = spans[k];
        let piece = slice_bytes(h, a, b);
        let ghost rest = all.skip(k as int);
        assert(rest[0] == piece@);
        assert(rest.drop_first() =~= all.skip(k + 1));
        let ghost before = texts(v@);
        if !piece.is_empty() {
            v.push(piece.to_owned());
            assert(texts(v@) =~= before + seq![piece@]);
        }
        assert(nonempty(all) =~= texts(v@) + nonempty(all.skip(k + 1)));
        k = k + 1;
    }
    assert(all.skip(k as int) =~= Seq::<Seq<char>>::empty());
    assert(nonempty(all) =~= texts(v@));
    v
}

/// Cuts one big row into its field names and field types; see
/// [`column_lists`].
pub fn try_retrieve_2_col_lists_from_rows_within_row(
    row: &str,
    split_row_by: &str,
    split_col_by: &str,
    index_1: usize,
    index_2: usize,
    is_verbose: bool,
) -> (r: Result<(Vec<String>, Vec<String>), BuildError>)
    ensures
        match r {
            Ok((names, types)) => column_lists(
                row@,
                split_row_by@,
                split_col_by@,
                index_1 as nat,
                index_2 as nat,
            ) == Ok::<(Seq<Seq<char>>, Seq<Seq<char>>), BuildError>((texts(names@), texts(types@))),
            Err(e) => column_lists(
                row@,
                split_row_by@,
                split_col_by@,
                index_1 as nat,
                index_2 as nat,
            ) == Err::<(Seq<Seq<char>>, Seq<Seq<char>>), BuildError>(e),
        },
{
    let row_re = match compile_pattern(split_row_by) {
        Ok(re) => re,
        Err(_) => {
            return Err(BuildError::InvalidRowSplitPattern);
        },
    };
    let spans = find_spans(&row_re, row);
    let col_re = match compile_pattern(split_col_by) {
        Ok(re) => re,
        Err(_) => {
            return Err(BuildError::InvalidColumnSplitPattern);
        },
    };
    let ghost all = span_texts(row@, spans@);
    let ghost want = field_lists(all, split_col_by@, index_1 as nat, index_2 as nat);
    let mut names: Vec<String> = Vec::new();
    let mut types: Vec<String> = Vec::new();
    let mut k: usize = 0;
    assert(all.skip(0) =~= all);
    assert(prepend_lists(texts(names@), texts(types@), want) =~= want);
    while k < spans.len()
        invariant
            all == span_texts(row@, spans@),
            spans@ == regex_find_spans(split_row_by@, row@),
            col_re@ == split_col_by@,
            regex_compiles(split_row_by@),
            regex_compiles(split_col_by@),
            forall|j: int|
                0 <= j < spans@.len() ==> {
                    &&& (#[trigger] spans@[j]).0 <= spans@[j].1
                    &&& on_boundary(row@, spans@[j].0 as int)
                    &&& on_boundary(row@, spans@[j].1 as int)
                },
            0 <= k <= spans.len(),
            want == field_lists(all, split_col_by@, index_1 as nat, index_2 as nat),
            want == prepend_lists(
                texts(names@),
                texts(types@),
                field_lists(
                    all.skip(k as int),
                    split_col_by@,
                    index_1 as nat,
                    index_2 as nat,
                ),
            ),
        decreases spans.len() - k,
    {
        let (a, b) = spans[k];
        let fragment = slice_bytes(row, a, b);
        let ghost rest = all.skip(k as int);
        assert(rest[0] == fragment@);
        assert(rest.drop_first() =~= all.skip(k + 1));
        let columns = nonempty_matches(&col_re, fragment);
        assert(texts(columns@) == fragment_columns(split_col_by@, rest[0]));
        assert(texts(columns@).len() == columns@.len());
        let ghost later = field_lists(
            all.skip(k + 1),
            split_col_by@,
            index_1 as nat,
            index_2 as nat,
        );
        if columns.len() > 1 {
            if index_1 < columns.len() && index_2 < columns.len() {
                let ghost before_names = texts(names@);
                let ghost before_types = texts(types@);
                names.push(columns[index_1].clone());
                types.push(columns[index_2].clone());
                proof {
                    assert(texts(names@) =~= before_names + seq![texts(columns@)[index_1 as int]]);
                    assert(texts(types@) =~= before_types + seq![texts(columns@)[index_2 as int]]);
                    match later {
                        Err(e) => {},
                        Ok((x, y)) => {
                            assert(before_names + (seq![texts(columns@)[index_1 as int]] + x)
                                =~= texts(names@) + x);
                            assert(before_types + (seq![texts(columns@)[index_2 as int]] + y)
                                =~= texts(types@) + y);
                        },
                    }
                }
            } else {
                assert(field_lists(rest, split_col_by@, index_1 as nat, index_2 as nat)
                    == Err::<(Seq<Seq<char>>, Seq<Seq<char>>), BuildError>(
                    BuildError::ColumnIndexOutOfRange,
                ));
                return Err(BuildError::ColumnIndexOutOfRange);
            }
        }
        k = k + 1;
    }
    assert(all.skip(k as int) =~= Seq::<Seq<char>>::empty());
    assert(texts(names@) + Seq::<Seq<char>>::empty() =~= texts(names@));
    assert(texts(types@) + Seq::<Seq<char>>::empty() =~= texts(types@));
    Ok((names, types))
}

/// Cuts one big row into its field names and field types; see
/// [`column_lists`]. The inputs on which this fails (a pattern that does not
/// compile, or a column index past the columns of a fragment) are left out;
/// [`try_retrieve_2_col_lists_from_rows_within_row`] takes every input.
pub fn retrieve_2_col_lists_from_rows_within_row(
    row: &str,
    split_row_by: &str,
    split_col_by: &str,
    index_1: usize,
    index_2: usize,
    is_verbose: bool,
) -> (r: (Vec<String>, Vec<String>))
    requires
        column_lists(row@, split_row_by@, split_col_by@, index_1 as nat, index_2 as nat) is Ok,
    ensures
        column_lists(row@, split_row_by@, split_col_by@, index_1 as nat, index_2 as nat) == Ok::<
            (Seq<Seq<char>>, Seq<Seq<char>>),
            BuildError,
        >((texts(r.0@), texts(r.1@))),
{
    try_retrieve_2_col_lists_from_rows_within_row(
        row,
        split_row_by,
        split_col_by,
        index_1,
        index_2,
        is_verbose,
    ).unwrap()
}

/// The pattern that finds the fields of a struct definition, in struct mode.
pub open spec fn struct_field_pattern() -> Seq<char> {
    "[\\w\\s\\d,:\\{<>--[\\r\\n\\t]]{1,}(?:,)"@
}

/// The pattern that finds the name and type of a field, in struct mode.
pub open spec fn struct_column_pattern() -> Seq<char> {
    "(Option<HashMap<String,Option<String>>>)|(String)|([_a-zA-Z0-9<>]+)"@
}

fn struct_field_pattern_text() -> (s: &'static str)
    ensures
        s@ == struct_field_pattern(),
{
    "[\\w\\s\\d,:\\{<>--[\\r\\n\\t]]{1,}(?:,)"
}

fn struct_column_pattern_text() -> (s: &'static str)
    ensures
        s@ == struct_column_pattern(),
{
    "(Option<HashMap<String,Option<String>>>)|(String)|([_a-zA-Z0-9<>]+)"
}

/// The big rows: the matches of `row_regex` in the second input, without
/// those that `omit_big_row_re` matches when it is given.
pub open spec fn big_rows(row_regex: Seq<char>, omit_big_row_re: Seq<char>, regexable: Seq<char>) -> Result<
    Seq<Seq<char>>,
    BuildError,
> {
    if !regex_compiles(row_regex) {
        Err(BuildError::InvalidBigRowPattern)
    } else {
        let found = span_texts(regexable, regex_find_spans(row_regex, regexable));
        if omit_big_row_re.len() == 0 {
            Ok(found)
        } else if !regex_compiles(omit_big_row_re) {
            Err(BuildError::InvalidOmitBigRowPattern)
        } else {
            Ok(unmatched(omit_big_row_re, found))
        }
    }
}

/// Field tables, in front of the tables a later step gives.
pub open spec fn prepend_tables(
    front: Seq<(Seq<Seq<char>>, Seq<Seq<char>>)>,
    r: Result<Seq<(Seq<Seq<char>>, Seq<Seq<char>>)>, BuildError>,
) -> Result<Seq<(Seq<Seq<char>>, Seq<Seq<char>>)>, BuildError> {
    match r {
        Err(e) => Err(e),
        Ok(rest) => Ok(front + rest),
    }
}

/// The field tables of the big rows from position `first` on, leaving out
/// the big rows whose positions are listed in `skip`.
pub open spec fn table_rows(
    rows: Seq<Seq<char>>,
    skip: Seq<usize>,
    first: nat,
    split_row_by: Seq<char>,
    split_col_by: Seq<char>,
    index_1: nat,
    index_2: nat,
) -> Result<Seq<(Seq<Seq<char>>, Seq<Seq<char>>)>, BuildError>
    decreases rows.len(),
{
    if rows.len() == 0 {
        Ok(Seq::empty())
    } else {
        let rest = table_rows(
            rows.drop_first(),
            skip,
            first + 1,
            split_row_by,
            split_col_by,
            index_1,
            index_2,
        );
        if listed(skip, first as int) {
            rest
        } else {
            match column_lists(rows[0], split_row_by, split_col_by, index_1, index_2) {
                Err(e) => Err(e),
                Ok(pair) => prepend_tables(seq![pair], rest),
            }
        }
    }
}

/// The fields from number `i` on filled into the template one after the
/// other, leaving out the listed field numbers.
pub open spec fn apply_fields(
    names: Seq<Seq<char>>,
    types: Seq<Seq<char>>,
    template: Seq<char>,
    little_skip: Seq<usize>,
    is_struct: bool,
    i: nat,
) -> Seq<char>
    decreases names.len() - i,
{
    if i >= names.len() {
        template
    } else {
        let next = if listed(little_skip, i as int) {
            template
        } else {
            filled_template(names[i as int], types[i as int], template, is_struct, i == names.len() - 1)
        };
        apply_fields(names, types, next, little_skip, is_struct, i + 1)
    }
}

/// The output line of one csv row: the big row it names by column
/// `table_col` gives the fields, filled into the row's own expansion.
pub open spec fn csv_row_output(
    row: Seq<char>,
    tables: Seq<(Seq<Seq<char>>, Seq<Seq<char>>)>,
    csv_col_del: Seq<char>,
    token: Seq<char>,
    template: Seq<char>,
    omit_col: Seq<char>,
    little_skip: Seq<usize>,
    is_struct: bool,
    table_col: nat,
) -> Result<Seq<char>, BuildError> {
    match table_index(row, csv_col_del, table_col) {
        Err(e) => Err(e),
        Ok(ix) => if ix >= tables.len() {
            Err(BuildError::TableIndexOutOfRange)
        } else {
            match entry_outcome(row, template, csv_col_del, token, omit_col) {
                Err(e) => Err(e),
                Ok(t) => if tables[ix as int].0.len() != tables[ix as int].1.len() {
                    Err(BuildError::ColumnListLengthMismatch)
                } else {
                    Ok(
                        apply_fields(
                            tables[ix as int].0,
                            tables[ix as int].1,
                            t,
                            little_skip,
                            is_struct,
                            0,
                        ) + "\n"@,
                    )
                },
            }
        },
    }
}

/// The output lines of the csv rows, concatenated in order.
pub open spec fn csv_rows_output(
    rows: Seq<Seq<char>>,
    tables: Seq<(Seq<Seq<char>>, Seq<Seq<char>>)>,
    csv_col_del: Seq<char>,
    token: Seq<char>,
    template: Seq<char>,
    omit_col: Seq<char>,
    little_skip: Seq<usize>,
    is_struct: bool,
    table_col: nat,
) -> Result<Seq<char>, BuildError>
    decreases rows.len(),
{
    if rows.len() == 0 {
        Ok(Seq::empty())
    } else {
        match csv_row_output(
            rows[0],
            tables,
            csv_col_del,
            token,
            template,
            omit_col,
            little_skip,
            is_struct,
            table_col,
        ) {
            Err(e) => Err(e),
            Ok(t) => match csv_rows_output(
                rows.drop_first(),
                tables,
                csv_col_del,
                token,
                template,
                omit_col,
                little_skip,
                is_struct,
                table_col,
            ) {
                Err(e) => Err(e),
                Ok(rest) => Ok(t + rest),
            },
        }
    }
}

/// The whole output of the two-input build.
///
/// In struct mode the fragment and column patterns and the two column
/// numbers are fixed. The big rows must not be missing and, unless the check
/// is disabled, there must be as many of them as csv rows; their field
/// tables are made before the csv rows (without those `omit_csv_row_re`
/// matches, when given) are turned into output lines.
pub open spec fn buildre_outcome(
    input: Seq<char>,
    csv_row_del: Seq<char>,
    csv_col_del: Seq<char>,
    token: Seq<char>,
    regexable_input: Seq<char>,
    ind_1: nat,
    ind_2: nat,
    row_regex_str: Seq<char>,
    split_r_by: Seq<char>,
    split_column_by: Seq<char>,
    is_struct: bool,
    template: Seq<char>,
    disable_assert_row_count: bool,
    big_rows_to_skip: Seq<usize>,
    little_rows_to_skip: Seq<usize>,
    token_ind_of_table_name: nat,
    omit_csv_col_re: Seq<char>,
    omit_csv_row_re: Seq<char>,
    omit_big_row_re: Seq<char>,
) -> Result<Seq<char>, BuildError> {
    let split_row_by = if is_struct {
        struct_field_pattern()
    } else {
        split_r_by
    };
    let split_col_by = if is_struct {
        struct_column_pattern()
    } else {
        split_column_by
    };
    let index_1: nat = if is_struct {
        1
    } else {
        ind_1
    };
    let index_2: nat = if is_struct {
        2
    } else {
        ind_2
    };
    match big_rows(row_regex_str, omit_big_row_re, regexable_input) {
        Err(e) => Err(e),
        Ok(rows) => {
            let csv_rows = split_pieces(input, csv_row_del);
            if rows.len() == 0 {
                Err(BuildError::NoBigRows)
            } else if !disable_assert_row_count && rows.len() != csv_rows.len() {
                Err(BuildError::RowCountMismatch)
            } else {
                match table_rows(
                    rows,
                    big_rows_to_skip,
                    0,
                    split_row_by,
                    split_col_by,
                    index_1,
                    index_2,
                ) {
                    Err(e) => Err(e),
                    Ok(tables) => {
                        let kept = if omit_csv_row_re.len() > 0 {
                            omit_rows(omit_csv_row_re, csv_rows)
                        } else {
                            Ok(csv_rows)
                        };
                        match kept {
                            Err(e) => Err(e),
                            Ok(kept) => csv_rows_output(
                                kept,
                                tables,
                                csv_col_del,
                                token,
                                template,
                                omit_csv_col_re,
                                little_rows_to_skip,
                                is_struct,
                                token_ind_of_table_name,
                            ),
                        }
                    },
                }
            }
        },
    }
}

/// The field tables as texts.
pub open spec fn table_texts(t: Seq<(Vec<String>, Vec<String>)>) -> Seq<
    (Seq<Seq<char>>, Seq<Seq<char>>),
> {
    t.map_values(|p: (Vec<String>, Vec<String>)| (texts(p.0@), texts(p.1@)))
}

/// Whether `x` is one of the listed indices.
fn is_listed(v: &Vec<usize>, x: usize) -> (b: bool)
    ensures
        b == listed(v@, x as int),
{
    let mut k: usize = 0;
    while k < v.len()
        invariant
            0 <= k <= v.len(),
            forall|j: int| 0 <= j < k ==> v@[j] != x,
        decreases v.len() - k,
    {
        if v[k] == x {
            return true;
        }
        k = k + 1;
    }
    false
}

/// [`big_rows`], computed; the rows are slices of the second input.
fn find_big_rows<'a>(row_regex_str: &str, omit_big_row_re: &str, regexable_input: &'a str) -> (r:
    Result<Vec<&'a str>, BuildError>)
    ensures
        match r {
            Ok(v) => big_rows(row_regex_str@, omit_big_row_re@, regexable_input@) == Ok::<
                Seq<Seq<char>>,
                BuildError,
            >(slice_texts(v@)),
            Err(e) => big_rows(row_regex_str@, omit_big_row_re@, regexable_input@) == Err::<
                Seq<Seq<char>>,
                BuildError,
            >(e),
        },
{
    let row_re = match compile_pattern(row_regex_str) {
        Ok(re) => re,
        Err(_) => {
            return Err(BuildError::InvalidBigRowPattern);
        },
    };
    let spans = find_spans(&row_re, regexable_input);
    let mut rows: Vec<&'a str> = Vec::new();
    let mut k: usize = 0;
    while k < spans.len()
        invariant
            spans@ == regex_find_spans(row_regex_str@, regexable_input@),
            forall|j: int|
                0 <= j < spans@.len() ==> {
                    &&& (#[trigger] spans@[j]).0 <= spans@[j].1
                    &&& on_boundary(regexable_input@, spans@[j].0 as int)
                    &&& on_boundary(regexable_input@, spans@[j].1 as int)
                },
            0 <= k <= spans.len(),
            slice_texts(rows@) == span_texts(regexable_input@, spans@).take(k as int),
        decreases spans.len() - k,
    {
        let (a, b) = spans[k];
        let ghost before = slice_texts(rows@);
        rows.push(slice_bytes(regexable_input, a, b));
        assert(slice_texts(rows@) =~= span_texts(regexable_input@, spans@).take(k + 1)) by {
            assert(slice_texts(rows@) =~= before + seq![rows@[k as int]@]);
        }
        k = k + 1;
    }
    assert(span_texts(regexable_input@, spans@).take(k as int) =~= span_texts(
        regexable_input@,
        spans@,
    ));
    if omit_big_row_re.is_empty() {
        return Ok(rows);
    }
    match compile_pattern(omit_big_row_re) {
        Ok(re) => Ok(filter_unmatched(&re, rows)),
        Err(_) => Err(BuildError::InvalidOmitBigRowPattern),
    }
}

/// [`table_rows`] from position zero.
fn collect_tables(
    rows: &Vec<&str>,
    skip: &Vec<usize>,
    split_row_by: &str,
    split_col_by: &str,
    index_1: usize,
    index_2: usize,
    is_verbose: bool,
) -> (r: Result<Vec<(Vec<String>, Vec<String>)>, BuildError>)
    ensures
        match r {
            Ok(t) => table_rows(
                slice_texts(rows@),
                skip@,
                0,
                split_row_by@,
                split_col_by@,
                index_1 as nat,
                index_2 as nat,
            ) == Ok::<Seq<(Seq<Seq<char>>, Seq<Seq<char>>)>, BuildError>(table_texts(t@)),
            Err(e) => table_rows(
                slice_texts(rows@),
                skip@,
                0,
                split_row_by@,
                split_col_by@,
                index_1 as nat,
                index_2 as nat,
            ) == Err::<Seq<(Seq<Seq<char>>, Seq<Seq<char>>)>, BuildError>(e),
        },
{
    let ghost all = slice_texts(rows@);
    let ghost want = table_rows(
        all,
        skip@,
        0,
        split_row_by@,
        split_col_by@,
        index_1 as nat,
        index_2 as nat,
    );
    let mut tables: Vec<(Vec<String>, Vec<String>)> = Vec::new();
    let mut k: usize = 0;
    assert(all.skip(0) =~= all);
    assert(prepend_tables(table_texts(tables@), want) =~= want);
    while k < rows.len()
        invariant
            all == slice_texts(rows@),
            want == table_rows(
                all,
                skip@,
                0,
                split_row_by@,
                split_col_by@,
                index_1 as nat,
                index_2 as nat,
            ),
            0 <= k <= rows.len(),
            want == prepend_tables(
                table_texts(tables@),
                table_rows(
                    all.skip(k as int),
                    skip@,
                    k as nat,
                    split_row_by@,
                    split_col_by@,
                    index_1 as nat,
                    index_2 as nat,
                ),
            ),
        decreases rows.len() - k,
    {
        let ghost rest = all.skip(k as int);
        assert(rest[0] == rows@[k as int]@);
        assert(rest.drop_first() =~= all.skip(k + 1));
        if !is_listed(skip, k) {
            let pair = match try_retrieve_2_col_lists_from_rows_within_row(
                rows[k],
                split_row_by,
                split_col_by,
                index_1,
                index_2,
                is_verbose,
            ) {
                Ok(p) => p,
                Err(e) => {
                    return Err(e);
                },
            };
            let ghost pair_texts = (texts(pair.0@), texts(pair.1@));
            let ghost before = table_texts(tables@);
            tables.push(pair);
            proof {
                assert(table_texts(tables@) =~= before + seq![pair_texts]);
                let later = table_rows(
                    all.skip(k + 1),
                    skip@,
                    (k + 1) as nat,
                    split_row_by@,
                    split_col_by@,
                    index_1 as nat,
                    index_2 as nat,
                );
                match later {
                    Err(e) => {},
                    Ok(more) => {
                        assert(before + (seq![pair_texts] + more) =~= table_texts(tables@) + more);
                    },
                }
            }
        }
        k = k + 1;
    }
    assert(all.skip(k as int) =~= Seq::<Seq<char>>::empty());
    assert(table_texts(tables@) + Seq::<(Seq<Seq<char>>, Seq<Seq<char>>)>::empty() =~= table_texts(
        tables@,
    ));
    Ok(tables)
}

/// [`apply_fields`] from field number zero.
fn fill_fields(
    names: &Vec<String>,
    types: &Vec<String>,
    template: String,
    little_rows_to_skip: &Vec<usize>,
    is_struct: bool,
) -> (r: String)
    requires
        names.len() == types.len(),
    ensures
        r@ == apply_fields(
            texts(names@),
            texts(types@),
            template@,
            little_rows_to_skip@,
            is_struct,
            0,
        ),
{
    let ghost ns = texts(names@);
    let ghost ts = texts(types@);
    let mut acc = template;
    let mut i: usize = 0;
    while i < names.len()
        invariant
            names.len() == types.len(),
            ns == texts(names@),
            ts == texts(types@),
            0 <= i <= names.len(),
            apply_fields(ns, ts, template@, little_rows_to_skip@, is_struct, 0) == apply_fields(
                ns,
                ts,
                acc@,
                little_rows_to_skip@,
                is_struct,
                i as nat,
            ),
        decreases names.len() - i,
    {
        if !is_listed(little_rows_to_skip, i) {
            assert(ns[i as int] == names@[i as int]@);
            assert(ts[i as int] == types@[i as int]@);
            acc = modify_template_based_on_row(
                names[i].clone(),
                types[i].clone(),
                acc.as_str(),
                is_struct,
                i == names.len() - 1,
            );
        }
        i = i + 1;
    }
    acc
}

/// [`csv_row_output`], computed.
fn csv_row_text(
    row: &str,
    tables: &Vec<(Vec<String>, Vec<String>)>,
    csv_col_del: &str,
    token: &str,
    template: &String,
    trim_endlines: bool,
    is_verbose: bool,
    omit_csv_col_re: &str,
    little_rows_to_skip: &Vec<usize>,
    is_struct: bool,
    token_ind_of_table_name: usize,
) -> (r: Result<String, BuildError>)
    ensures
        text_result(r) == csv_row_output(
            row@,
            table_texts(tables@),
            csv_col_del@,
            token@,
            template@,
            omit_csv_col_re@,
            little_rows_to_skip@,
            is_struct,
            token_ind_of_table_name as nat,
        ),
{
    let ix = match table_index_of_row(row, csv_col_del, token_ind_of_table_name) {
        Ok(ix) => ix,
        Err(e) => {
            return Err(e);
        },
    };
    if ix >= tables.len() {
        return Err(BuildError::TableIndexOutOfRange);
    }
    let names = &tables[ix].0;
    let types = &tables[ix].1;
    assert(table_texts(tables@)[ix as int] == (texts(names@), texts(types@)));
    let modified = match expand_entry(
        row,
        template,
        csv_col_del,
        token,
        trim_endlines,
        is_verbose,
        omit_csv_col_re,
    ) {
        Ok(t) => t,
        Err(e) => {
            return Err(e);
        },
    };
    if names.len() != types.len() {
        return Err(BuildError::ColumnListLengthMismatch);
    }
    let mut line = fill_fields(names, types, modified, little_rows_to_skip, is_struct);
    line.append("\n");
    Ok(line)
}

/// The output of the two-input build, assembled in a string builder; see
/// [`buildre_outcome`].
fn buildre_into_builder(
    input: &str,
    csv_row_del: &str,
    csv_col_del: &str,
    token: &str,
    trim_endlines: bool,
    regexable_input: &str,
    ind_1: usize,
    ind_2: usize,
    row_regex_str: &str,
    split_r_by: &str,
    split_column_by: &str,
    is_struct: bool,
    template: &String,
    is_verbose: bool,
    disable_assert_row_count: bool,
    big_rows_to_skip: &Vec<usize>,
    little_rows_to_skip: &Vec<usize>,
    token_ind_of_table_name: usize,
    omit_csv_col_re: &str,
    omit_csv_row_re: &str,
    omit_big_row_re: &str,
) -> (r: Result<Builder, BuildError>)
    ensures
        match r {
            Ok(b) => valid_utf8(builder_bytes(b)) && buildre_outcome(
                input@,
                csv_row_del@,
                csv_col_del@,
                token@,
                regexable_input@,
                ind_1 as nat,
                ind_2 as nat,
                row_regex_str@,
                split_r_by@,
                split_column_by@,
                is_struct,
                template@,
                                disable_assert_row_count,
                big_rows_to_skip@,
                little_rows_to_skip@,
                token_ind_of_table_name as nat,
                omit_csv_col_re@,
                omit_csv_row_re@,
                omit_big_row_re@,
            ) == Ok::<Seq<char>, BuildError>(decode_utf8(builder_bytes(b))),
            Err(e) => buildre_outcome(
                input@,
                csv_row_del@,
                csv_col_del@,
                token@,
                regexable_input@,
                ind_1 as nat,
                ind_2 as nat,
                row_regex_str@,
                split_r_by@,
                split_column_by@,
                is_struct,
                template@,
                                disable_assert_row_count,
                big_rows_to_skip@,
                little_rows_to_skip@,
                token_ind_of_table_name as nat,
                omit_csv_col_re@,
                omit_csv_row_re@,
                omit_big_row_re@,
            ) == Err::<Seq<char>, BuildError>(e),
        },
{
    let ghost want = buildre_outcome(
        input@,
        csv_row_del@,
        csv_col_del@,
        token@,
        regexable_input@,
        ind_1 as nat,
        ind_2 as nat,
        row_regex_str@,
        split_r_by@,
        split_column_by@,
        is_struct,
        template@,
                disable_assert_row_count,
        big_rows_to_skip@,
        little_rows_to_skip@,
        token_ind_of_table_name as nat,
        omit_csv_col_re@,
        omit_csv_row_re@,
        omit_big_row_re@,
    );
    let mut index_1 = ind_1;
    let mut index_2 = ind_2;
    let mut split_row_by = split_r_by;
    let mut split_col_by = split_column_by;
    if is_struct {
        split_col_by = struct_column_pattern_text();
        split_row_by = struct_field_pattern_text();
        index_1 = 1;
        index_2 = 2;
    }
    let rows = match find_big_rows(row_regex_str, omit_big_row_re, regexable_input) {
        Ok(rows) => rows,
        Err(e) => {
            return Err(e);
        },
    };
    if rows.len() == 0 {
        return Err(BuildError::NoBigRows);
    }
    let mut csv_rows = split_text(input, csv_row_del);
    assert(slice_texts(csv_rows@) =~= split_pieces(input@, csv_row_del@));
    if !disable_assert_row_count && rows.len() != csv_rows.len() {
        return Err(BuildError::RowCountMismatch);
    }
    let tables = match collect_tables(
        &rows,
        big_rows_to_skip,
        split_row_by,
        split_col_by,
        index_1,
        index_2,
        is_verbose,
    ) {
        Ok(t) => t,
        Err(e) => {
            return Err(e);
        },
    };
    if !omit_csv_row_re.is_empty() {
        csv_rows = match compile_pattern(omit_csv_row_re) {
            Ok(re) => filter_unmatched(&re, csv_rows),
            Err(_) => {
                return Err(BuildError::InvalidOmitRowPattern);
            },
        };
    }
    let ghost all = slice_texts(csv_rows@);
    let ghost lines = csv_rows_output(
        all,
        table_texts(tables@),
        csv_col_del@,
        token@,
        template@,
        omit_csv_col_re@,
        little_rows_to_skip@,
        is_struct,
        token_ind_of_table_name as nat,
    );
    assert(want == lines);
    let mut builder = empty_builder();
    let mut k: usize = 0;
    assert(all.skip(0) =~= all);
    assert(prepend_text(decode_utf8(builder_bytes(builder)), lines) =~= lines);
    while k < csv_rows.len()
        invariant
            all == slice_texts(csv_rows@),
            want == lines,
            want == buildre_outcome(
                input@,
                csv_row_del@,
                csv_col_del@,
                token@,
                regexable_input@,
                ind_1 as nat,
                ind_2 as nat,
                row_regex_str@,
                split_r_by@,
                split_column_by@,
                is_struct,
                template@,
                                disable_assert_row_count,
                big_rows_to_skip@,
                little_rows_to_skip@,
                token_ind_of_table_name as nat,
                omit_csv_col_re@,
                omit_csv_row_re@,
                omit_big_row_re@,
            ),
            lines == csv_rows_output(
                all,
                table_texts(tables@),
                csv_col_del@,
                token@,
                template@,
                omit_csv_col_re@,
                little_rows_to_skip@,
                is_struct,
                token_ind_of_table_name as nat,
            ),
            0 <= k <= csv_rows.len(),
            valid_utf8(builder_bytes(builder)),
            lines == prepend_text(
                decode_utf8(builder_bytes(builder)),
                csv_rows_output(
                    all.skip(k as int),
                    table_texts(tables@),
                    csv_col_del@,
                    token@,
                    template@,
                    omit_csv_col_re@,
                    little_rows_to_skip@,
                    is_struct,
                    token_ind_of_table_name as nat,
                ),
            ),
        decreases csv_rows.len() - k,
    {
        let ghost rest = all.skip(k as int);
        assert(rest[0] == csv_rows@[k as int]@);
        assert(rest.drop_first() =~= all.skip(k + 1));
        let line = match csv_row_text(
            csv_rows[k],
            &tables,
            csv_col_del,
            token,
            template,
            trim_endlines,
            is_verbose,
            omit_csv_col_re,
            little_rows_to_skip,
            is_struct,
            token_ind_of_table_name,
        ) {
            Ok(t) => t,
            Err(e) => {
                assert(csv_rows_output(
                    rest,
                    table_texts(tables@),
                    csv_col_del@,
                    token@,
                    template@,
                    omit_csv_col_re@,
                    little_rows_to_skip@,
                    is_struct,
                    token_ind_of_table_name as nat,
                ) == Err::<Seq<char>, BuildError>(e));
                return Err(e);
            },
        };
        let ghost before = decode_utf8(builder_bytes(builder));
        append_text(&mut builder, line.as_str());
        proof {
            let later = csv_rows_output(
                all.skip(k + 1),
                table_texts(tables@),
                csv_col_del@,
                token@,
                template@,
                omit_csv_col_re@,
                little_rows_to_skip@,
                is_struct,
                token_ind_of_table_name as nat,
            );
            match later {
                Err(e) => {},
                Ok(t) => {
                    assert(before + (line@ + t) =~= (before + line@) + t);
                },
            }
        }
        k = k + 1;
    }
    assert(all.skip(k as int) =~= Seq::<Seq<char>>::empty());
    assert(decode_utf8(builder_bytes(builder)) + Seq::<char>::empty() =~= decode_utf8(
        builder_bytes(builder),
    ));
    Ok(builder)
}

/// The two-input build: every csv row of `input`, filled with the fields of
/// the big row it names, one line each, in a string builder whose bytes are
/// the UTF-8 encoding of [`buildre_outcome`]. The inputs on which the build
/// fails are left out; [`try_start_buildre`] takes every input.
pub fn start_buildre(
    input: &str,
    csv_row_del: &str,
    csv_col_del: &str,
    token: &str,
    trim_endlines: bool,
    regexable_input: &str,
    ind_1: usize,
    ind_2: usize,
    row_regex_str: &str,
    split_r_by: &str,
    split_column_by: &str,
    is_struct: bool,
    template: String,
    is_verbose: bool,
    builder_re_mapping: i16,
    disable_assert_row_count: bool,
    big_rows_to_skip: Vec<usize>,
    little_rows_to_skip: Vec<usize>,
    token_ind_of_table_name: usize,
    omit_csv_col_re: &str,
    omit_csv_row_re: &str,
    omit_big_row_re: &str,
) -> (r: Builder)
    requires
        buildre_outcome(
            input@,
            csv_row_del@,
            csv_col_del@,
            token@,
            regexable_input@,
            ind_1 as nat,
            ind_2 as nat,
            row_regex_str@,
            split_r_by@,
            split_column_by@,
            is_struct,
            template@,
                        disable_assert_row_count,
            big_rows_to_skip@,
            little_rows_to_skip@,
            token_ind_of_table_name as nat,
            omit_csv_col_re@,
            omit_csv_row_re@,
            omit_big_row_re@,
        ) is Ok,
    ensures
        builder_bytes(r) == encode_utf8(
            buildre_outcome(
                input@,
                csv_row_del@,
                csv_col_del@,
                token@,
                regexable_input@,
                ind_1 as nat,
                ind_2 as nat,
                row_regex_str@,
                split_r_by@,
                split_column_by@,
                is_struct,
                template@,
                                disable_assert_row_count,
                big_rows_to_skip@,
                little_rows_to_skip@,
                token_ind_of_table_name as nat,
                omit_csv_col_re@,
                omit_csv_row_re@,
                omit_big_row_re@,
            )->Ok_0,
        ),
{
    let b = buildre_into_builder(
        input,
        csv_row_del,
        csv_col_del,
        token,
        trim_endlines,
        regexable_input,
        ind_1,
        ind_2,
        row_regex_str,
        split_r_by,
        split_column_by,
        is_struct,
        &template,
        is_verbose,
        disable_assert_row_count,
        &big_rows_to_skip,
        &little_rows_to_skip,
        token_ind_of_table_name,
        omit_csv_col_re,
        omit_csv_row_re,
        omit_big_row_re,
    ).unwrap();
    assert(encode_utf8(decode_utf8(builder_bytes(b))) == builder_bytes(b));
    b
}

/// [`start_buildre`] for every input: the error of [`buildre_outcome`] where
/// the build fails.
pub fn try_start_buildre(
    input: &str,
    csv_row_del: &str,
    csv_col_del: &str,
    token: &str,
    trim_endlines: bool,
    regexable_input: &str,
    ind_1: usize,
    ind_2: usize,
    row_regex_str: &str,
    split_r_by: &str,
    split_column_by: &str,
    is_struct: bool,
    template: String,
    is_verbose: bool,
    builder_re_mapping: i16,
    disable_assert_row_count: bool,
    big_rows_to_skip: Vec<usize>,
    little_rows_to_skip: Vec<usize>,
    token_ind_of_table_name: usize,
    omit_csv_col_re: &str,
    omit_csv_row_re: &str,
    omit_big_row_re: &str,
) -> (r: Result<Builder, BuildError>)
    ensures
        match r {
            Ok(b) => buildre_outcome(
                input@,
                csv_row_del@,
                csv_col_del@,
                token@,
                regexable_input@,
                ind_1 as nat,
                ind_2 as nat,
                row_regex_str@,
                split_r_by@,
                split_column_by@,
                is_struct,
                template@,
                                disable_assert_row_count,
                big_rows_to_skip@,
                little_rows_to_skip@,
                token_ind_of_table_name as nat,
                omit_csv_col_re@,
                omit_csv_row_re@,
                omit_big_row_re@,
            ) is Ok && builder_bytes(b) == encode_utf8(
                buildre_outcome(
                    input@,
                    csv_row_del@,
                    csv_col_del@,
                    token@,
                    regexable_input@,
                    ind_1 as nat,
                    ind_2 as nat,
                    row_regex_str@,
                    split_r_by@,
                    split_column_by@,
                    is_struct,
                    template@,
                                        disable_assert_row_count,
                    big_rows_to_skip@,
                    little_rows_to_skip@,
                    token_ind_of_table_name as nat,
                    omit_csv_col_re@,
                    omit_csv_row_re@,
                    omit_big_row_re@,
                )->Ok_0,
            ),
            Err(e) => buildre_outcome(
                input@,
                csv_row_del@,
                csv_col_del@,
                token@,
                regexable_input@,
                ind_1 as nat,
                ind_2 as nat,
                row_regex_str@,
                split_r_by@,
                split_column_by@,
                is_struct,
                template@,
                                disable_assert_row_count,
                big_rows_to_skip@,
                little_rows_to_skip@,
                token_ind_of_table_name as nat,
                omit_csv_col_re@,
                omit_csv_row_re@,
                omit_big_row_re@,
            ) == Err::<Seq<char>, BuildError>(e),
        },
{
    let r = buildre_into_builder(
        input,
        csv_row_del,
        csv_col_del,
        token,
        trim_endlines,
        regexable_input,
        ind_1,
        ind_2,
        row_regex_str,
        split_r_by,
        split_column_by,
        is_struct,
        &template,
        is_verbose,
        disable_assert_row_count,
        &big_rows_to_skip,
        &little_rows_to_skip,
        token_ind_of_table_name,
        omit_csv_col_re,
        omit_csv_row_re,
        omit_big_row_re,
    );
    if let Ok(b) = &r {
        assert(encode_utf8(decode_utf8(builder_bytes(*b))) == builder_bytes(*b));
    }
    r
}

} // verus!
