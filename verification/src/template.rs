//! Expansion of numbered tokens in a template.
//!
//! A template holds tokens `<token><n>`, where `n` is the decimal number of a
//! column. Expanding a column puts the column's text in place of each of its
//! tokens. A token may carry a qualifier, `<token><n><<regex:EXPR>>`: when
//! `EXPR` matches the column, the text of its capture group `a` replaces the
//! qualified token instead of the whole column.

use vstd::prelude::*;

use crate::error::BuildError;
use crate::pattern::{
    CompiledPattern, compile_pattern, find_spans, named_group_span, pattern_matches, regex_compiles,
    regex_find_spans, regex_is_match, regex_named_group,
};
use crate::text::{
    byte_len, byte_length, byte_range, decimal, decimal_text, on_boundary, replace_all, replace_text, replace_whole, replace_whole_text,
    lemma_encode_concat, slice_bytes, split_pieces, split_text, trim_end, trim_end_text,
};
use crate::buffer::{builder_append, builder_bytes, builder_text, new_builder};
use vstd::utf8::encode_utf8;

verus! {

broadcast use vstd::utf8::group_utf8_lib;

/// A result whose text is taken by its view.
pub open spec fn text_result(r: Result<String, BuildError>) -> Result<Seq<char>, BuildError> {
    match r {
        Ok(s) => Ok(s@),
        Err(e) => Err(e),
    }
}

/// The token for column `index`: the token text followed by the index in
/// decimal.
pub open spec fn token_label(token: Seq<char>, index: nat) -> Seq<char> {
    token + decimal(index)
}

/// The expression that finds the qualified occurrences of a token.
pub open spec fn qualifier_pattern(label: Seq<char>) -> Seq<char> {
    label + "<<regex:.*>>"@
}

/// The expression whose group `re` isolates a qualifier's own expression.
pub open spec fn isolator_pattern(label: Seq<char>) -> Seq<char> {
    "(?:"@ + label + "<<regex:)(?P<re>.*)(?:>>)"@
}

/// One qualified occurrence, at the byte span `span` of `template`, expanded
/// in the text `acc` built so far.
///
/// The qualifier's expression is taken from the occurrence; when it matches
/// the column, the template's text before the occurrence, the capture `a`,
/// and the text of `acc` from the occurrence's end to the template's length
/// make the new text; otherwise every copy of the occurrence in `acc` is
/// replaced by the column.
pub open spec fn qualified_step(
    label: Seq<char>,
    col: Seq<char>,
    template: Seq<char>,
    acc: Seq<char>,
    span: (usize, usize),
) -> Result<Seq<char>, BuildError> {
    let start = span.0 as int;
    let stop = span.1 as int;
    let occurrence = byte_range(template, start, stop);
    let isolator = isolator_pattern(label);
    if !regex_compiles(isolator) {
        Err(BuildError::InvalidQualifierIsolator)
    } else {
        match regex_named_group(isolator, occurrence, "re"@) {
            None => Err(BuildError::MissingRegexQualifier(span.0)),
            Some(None) => Err(BuildError::MissingCaptureGroup),
            Some(Some(g)) => {
                let inner = byte_range(occurrence, g.0 as int, g.1 as int);
                if !regex_compiles(inner) {
                    Err(BuildError::InvalidQualifierRegex)
                } else {
                    match regex_named_group(inner, col, "a"@) {
                        None => Ok(replace_all(acc, occurrence, col)),
                        Some(None) => Err(BuildError::MissingCaptureGroup),
                        Some(Some(a)) => {
                            let end = byte_len(template) as int;
                            if stop <= end && on_boundary(acc, stop) && on_boundary(acc, end) {
                                Ok(byte_range(template, 0, start) + byte_range(
                                    col,
                                    a.0 as int,
                                    a.1 as int,
                                ) + byte_range(acc, stop, end))
                            } else {
                                Err(BuildError::SliceOutOfRange)
                            }
                        },
                    }
                }
            },
        }
    }
}

/// The qualified occurrences at `spans`, expanded one after the other.
pub open spec fn qualified_steps(
    label: Seq<char>,
    col: Seq<char>,
    template: Seq<char>,
    spans: Seq<(usize, usize)>,
    acc: Seq<char>,
) -> Result<Seq<char>, BuildError>
    decreases spans.len(),
{
    if spans.len() == 0 {
        Ok(acc)
    } else {
        match qualified_step(label, col, template, acc, spans[0]) {
            Err(e) => Err(e),
            Ok(next) => qualified_steps(label, col, template, spans.drop_first(), next),
        }
    }
}

/// Expansion of column `index` (text `col`) in `template`: first the
/// qualified occurrences of the column's token, when the expression that
/// finds them compiles, then every remaining copy of the token that no
/// further digit follows (so the token for column 1 leaves the token for
/// column 10 alone).
pub open spec fn expand_token(token: Seq<char>, index: nat, template: Seq<char>, col: Seq<char>) -> Result<
    Seq<char>,
    BuildError,
> {
    let label = token_label(token, index);
    let finder = qualifier_pattern(label);
    if !regex_compiles(finder) {
        Ok(replace_whole(template, label, col))
    } else {
        match qualified_steps(label, col, template, regex_find_spans(finder, template), template) {
            Err(e) => Err(e),
            Ok(t) => Ok(replace_whole(t, label, col)),
        }
    }
}

/// A string holding the concatenation of the two texts.
fn concat2(a: &str, b: &str) -> (s: String)
    ensures
        s@ == a@ + b@,
{
    let mut s = String::new();
    s.append(a);
    s.append(b);
    assert(s@ =~= a@ + b@);
    s
}

/// A string holding the concatenation of the three texts.
fn concat3(a: &str, b: &str, c: &str) -> (s: String)
    ensures
        s@ == a@ + b@ + c@,
{
    let mut s = String::new();
    s.append(a);
    s.append(b);
    s.append(c);
    assert(s@ =~= a@ + b@ + c@);
    s
}

/// One qualified occurrence expanded; see [`qualified_step`].
fn expand_qualified(label: &str, col: &str, template: &str, acc: String, span: (usize, usize)) -> (r:
    Result<String, BuildError>)
    requires
        span.0 <= span.1,
        on_boundary(template@, span.0 as int),
        on_boundary(template@, span.1 as int),
    ensures
        text_result(r) == qualified_step(label@, col@, template@, acc@, span),
{
    let (start, stop) = span;
    let occurrence = slice_bytes(template, start, stop);
    let isolator = concat3("(?:", label, "<<regex:)(?P<re>.*)(?:>>)");
    let isolator_re = match compile_pattern(isolator.as_str()) {
        Ok(re) => re,
        Err(_) => {
            return Err(BuildError::InvalidQualifierIsolator);
        },
    };
    let group = match named_group_span(&isolator_re, occurrence, "re") {
        None => {
            return Err(BuildError::MissingRegexQualifier(start));
        },
        Some(None) => {
            return Err(BuildError::MissingCaptureGroup);
        },
        Some(Some(g)) => g,
    };
    let inner = slice_bytes(occurrence, group.0, group.1);
    let inner_re = match compile_pattern(inner) {
        Ok(re) => re,
        Err(_) => {
            return Err(BuildError::InvalidQualifierRegex);
        },
    };
    match named_group_span(&inner_re, col, "a") {
        None => Ok(replace_text(acc.as_str(), occurrence, col, None)),
        Some(None) => Err(BuildError::MissingCaptureGroup),
        Some(Some(a)) => {
            let end = byte_length(template);
            let acc_str = acc.as_str();
            if stop <= end && acc_str.is_char_boundary(stop) && acc_str.is_char_boundary(end) {
                let head = slice_bytes(template, 0, start);
                let captured = slice_bytes(col, a.0, a.1);
                let tail = slice_bytes(acc_str, stop, end);
                Ok(concat3(head, captured, tail))
            } else {
                Err(BuildError::SliceOutOfRange)
            }
        },
    }
}

/// Puts the text `col` of column `index` in place of that column's tokens in
/// `template`; see [`expand_token`] for the exact result and the inputs that
/// give each error. Takes every input; [`replace_token_in_template`] takes
/// those on which expansion succeeds.
pub fn try_replace_token_in_template(
    token: &str,
    index: usize,
    template: String,
    col: &str,
    verbose: bool,
) -> (r: Result<String, BuildError>)
    ensures
        text_result(r) == expand_token(token@, index as nat, template@, col@),
{
    let mut label = String::new();
    label.append(token);
    let digits = decimal_text(index);
    label.append(digits.as_str());
    assert(label@ =~= token_label(token@, index as nat));
    let finder = concat2(label.as_str(), "<<regex:.*>>");
    assert(finder@ =~= qualifier_pattern(label@));
    let finder_re = match compile_pattern(finder.as_str()) {
        Ok(re) => re,
        Err(_) => {
            return Ok(replace_whole_text(template.as_str(), label.as_str(), col));
        },
    };
    let spans = find_spans(&finder_re, template.as_str());
    let mut acc = template.clone();
    let mut k: usize = 0;
    assert(spans@.skip(0) =~= spans@);
    while k < spans.len()
        invariant
            0 <= k <= spans.len(),
            label@ == token_label(token@, index as nat),
            finder@ == qualifier_pattern(label@),
            regex_compiles(finder@),
            spans@ == regex_find_spans(finder@, template@),
            forall|j: int|
                0 <= j < spans@.len() ==> {
                    &&& (#[trigger] spans@[j]).0 <= spans@[j].1
                    &&& on_boundary(template@, spans@[j].0 as int)
                    &&& on_boundary(template@, spans@[j].1 as int)
                },
            qualified_steps(label@, col@, template@, spans@, template@) == qualified_steps(
                label@,
                col@,
                template@,
                spans@.skip(k as int),
                acc@,
            ),
        decreases spans.len() - k,
    {
        let span = spans[k];
        assert(spans@.skip(k as int)[0] == span);
        assert(spans@.skip(k as int).drop_first() =~= spans@.skip(k + 1));
        let ghost before = acc@;
        match expand_qualified(label.as_str(), col, template.as_str(), acc, span) {
            Err(e) => {
                assert(qualified_steps(label@, col@, template@, spans@.skip(k as int), before)
                    == Err::<Seq<char>, BuildError>(e));
                return Err(e);
            },
            Ok(next) => {
                acc = next;
            },
        }
        k = k + 1;
    }
    assert(spans@.skip(k as int) =~= Seq::<(usize, usize)>::empty());
    Ok(replace_whole_text(acc.as_str(), label.as_str(), col))
}

/// Puts the text `col` of column `index` in place of that column's tokens in
/// `template`; see [`expand_token`]. The inputs on which expansion fails (a
/// qualifier whose expression does not compile or has no group `a` taking
/// part in its match) are left out; [`try_replace_token_in_template`] takes
/// every input.
pub fn replace_token_in_template(
    token: &str,
    index: usize,
    template: String,
    col: &str,
    verbose: bool,
) -> (r: String)
    requires
        expand_token(token@, index as nat, template@, col@) is Ok,
    ensures
        r@ == expand_token(token@, index as nat, template@, col@)->Ok_0,
{
    try_replace_token_in_template(token, index, template, col, verbose).unwrap()
}

/// The texts held by a vector of strings.
pub open spec fn texts(v: Seq<String>) -> Seq<Seq<char>> {
    v.map_values(|x: String| x@)
}

/// The texts of a vector of string slices.
pub open spec fn slice_texts(v: Seq<&str>) -> Seq<Seq<char>> {
    v.map_values(|x: &str| x@)
}

/// A column list in front of the columns a later step gives.
pub open spec fn prepend_columns(
    front: Seq<Seq<char>>,
    r: Result<(Seq<char>, Seq<Seq<char>>), BuildError>,
) -> Result<(Seq<char>, Seq<Seq<char>>), BuildError> {
    match r {
        Err(e) => Err(e),
        Ok((t, rest)) => Ok((t, front + rest)),
    }
}

/// Columns from `cols` expanded one after the other in `template`, numbered
/// from `index` on, where each column the pattern matches is blanked: its
/// token is expanded with the empty text, and every column keeps its own
/// number. Gives the expanded text and the columns with the matched ones
/// blanked.
pub open spec fn omit_scan(
    pattern: Seq<char>,
    template: Seq<char>,
    token: Seq<char>,
    cols: Seq<Seq<char>>,
    index: nat,
) -> Result<(Seq<char>, Seq<Seq<char>>), BuildError>
    decreases cols.len(),
{
    if cols.len() == 0 {
        Ok((template, Seq::empty()))
    } else {
        let shown = if regex_is_match(pattern, cols[0]) {
            Seq::<char>::empty()
        } else {
            cols[0]
        };
        match expand_token(token, index, template, shown) {
            Err(e) => Err(e),
            Ok(t) => prepend_columns(
                seq![shown],
                omit_scan(pattern, t, token, cols.drop_first(), index + 1),
            ),
        }
    }
}

/// Omission of the columns that `pattern` matches, for a pattern that must
/// compile.
pub open spec fn omit_columns(
    pattern: Seq<char>,
    template: Seq<char>,
    token: Seq<char>,
    cols: Seq<Seq<char>>,
) -> Result<(Seq<char>, Seq<Seq<char>>), BuildError> {
    if !regex_compiles(pattern) {
        Err(BuildError::InvalidOmitColumnPattern)
    } else {
        omit_scan(pattern, template, token, cols, 1)
    }
}

/// The columns `cols` expanded one after the other in `template`, numbered
/// from `index` on.
pub open spec fn expand_columns(
    token: Seq<char>,
    index: nat,
    template: Seq<char>,
    cols: Seq<Seq<char>>,
) -> Result<Seq<char>, BuildError>
    decreases cols.len(),
{
    if cols.len() == 0 {
        Ok(template)
    } else {
        match expand_token(token, index, template, cols[0]) {
            Err(e) => Err(e),
            Ok(t) => expand_columns(token, index + 1, t, cols.drop_first()),
        }
    }
}

/// Expansion of one delimited entry: with an omission pattern, the text of
/// the omission step; otherwise every column of the entry in turn, numbered
/// from 1.
pub open spec fn entry_outcome(
    entry: Seq<char>,
    template: Seq<char>,
    col_del: Seq<char>,
    token: Seq<char>,
    omit: Seq<char>,
) -> Result<Seq<char>, BuildError> {
    let cols = split_pieces(entry, col_del);
    if omit.len() > 0 {
        match omit_columns(omit, template, token, cols) {
            Err(e) => Err(e),
            Ok((t, _)) => Ok(t),
        }
    } else {
        expand_columns(token, 1, template, cols)
    }
}

/// The rows that `pattern` does not match, in order.
pub open spec fn unmatched(pattern: Seq<char>, rows: Seq<Seq<char>>) -> Seq<Seq<char>>
    decreases rows.len(),
{
    if rows.len() == 0 {
        Seq::empty()
    } else {
        (if regex_is_match(pattern, rows[0]) {
            Seq::empty()
        } else {
            seq![rows[0]]
        }) + unmatched(pattern, rows.drop_first())
    }
}

/// Omission of the rows that `pattern` matches, for a pattern that must
/// compile.
pub open spec fn omit_rows(pattern: Seq<char>, rows: Seq<Seq<char>>) -> Result<
    Seq<Seq<char>>,
    BuildError,
> {
    if !regex_compiles(pattern) {
        Err(BuildError::InvalidOmitRowPattern)
    } else {
        Ok(unmatched(pattern, rows))
    }
}

/// The token with trailing carriage returns, then trailing line feeds,
/// removed, when trimming is asked for.
pub open spec fn trimmed_token(token: Seq<char>, trim_endlines: bool) -> Seq<char> {
    if trim_endlines {
        trim_end(trim_end(token, '\r'), '\n')
    } else {
        token
    }
}

/// Expansion of one row of the input: its columns expanded with the
/// (trimmed) token, numbered from 1, where a column that the omission
/// pattern matches, when one is given, is expanded as empty text.
pub open spec fn row_outcome(
    row: Seq<char>,
    template: Seq<char>,
    col_del: Seq<char>,
    token: Seq<char>,
    trim_endlines: bool,
    omit_col: Seq<char>,
) -> Result<Seq<char>, BuildError> {
    let cols = split_pieces(row, col_del);
    let tok = trimmed_token(token, trim_endlines);
    if omit_col.len() > 0 {
        match omit_columns(omit_col, template, tok, cols) {
            Err(e) => Err(e),
            Ok((t, _)) => Ok(t),
        }
    } else {
        expand_columns(tok, 1, template, cols)
    }
}

/// The expansions of the rows, concatenated in order.
pub open spec fn rows_outcome(
    rows: Seq<Seq<char>>,
    template: Seq<char>,
    col_del: Seq<char>,
    token: Seq<char>,
    trim_endlines: bool,
    omit_col: Seq<char>,
) -> Result<Seq<char>, BuildError>
    decreases rows.len(),
{
    if rows.len() == 0 {
        Ok(Seq::empty())
    } else {
        match row_outcome(rows[0], template, col_del, token, trim_endlines, omit_col) {
            Err(e) => Err(e),
            Ok(t) => match rows_outcome(
                rows.drop_first(),
                template,
                col_del,
                token,
                trim_endlines,
                omit_col,
            ) {
                Err(e) => Err(e),
                Ok(rest) => Ok(t + rest),
            },
        }
    }
}

/// The whole output for an input of delimited rows.
pub open spec fn build_output_outcome(
    input: Seq<char>,
    template: Seq<char>,
    col_del: Seq<char>,
    row_del: Seq<char>,
    token: Seq<char>,
    trim_endlines: bool,
    omit_col: Seq<char>,
    omit_row: Seq<char>,
) -> Result<Seq<char>, BuildError> {
    let rows = split_pieces(input, row_del);
    if omit_row.len() > 0 {
        match omit_rows(omit_row, rows) {
            Err(e) => Err(e),
            Ok(kept) => rows_outcome(kept, template, col_del, token, trim_endlines, omit_col),
        }
    } else {
        rows_outcome(rows, template, col_del, token, trim_endlines, omit_col)
    }
}

/// Blanks the columns that `omit_csv_col_re` matches and expands every
/// column, blanked ones as empty text, one after the other in the template,
/// numbered from 1; see
/// [`omit_columns`] for the text and columns given back and the inputs that
/// give each error.
pub fn try_omit_cols_by_re(
    omit_csv_col_re: &str,
    temp: String,
    cols: Vec<String>,
    token: &str,
    trim_endlines: bool,
    verbose: bool,
) -> (r: Result<(String, Vec<String>), BuildError>)
    ensures
        match r {
            Ok((t, kept)) => omit_columns(omit_csv_col_re@, temp@, token@, texts(cols@)) == Ok::<
                (Seq<char>, Seq<Seq<char>>),
                BuildError,
            >((t@, texts(kept@))),
            Err(e) => omit_columns(omit_csv_col_re@, temp@, token@, texts(cols@)) == Err::<
                (Seq<char>, Seq<Seq<char>>),
                BuildError,
            >(e),
        },
{
    let re = match compile_pattern(omit_csv_col_re) {
        Ok(re) => re,
        Err(_) => {
            return Err(BuildError::InvalidOmitColumnPattern);
        },
    };
    let ghost pattern = omit_csv_col_re@;
    let ghost all = texts(cols@);
    let mut acc = temp;
    let mut kept: Vec<String> = Vec::new();
    let mut k: usize = 0;
    assert(all.skip(0) =~= all);
    assert(texts(kept@) =~= Seq::<Seq<char>>::empty());
    assert(prepend_columns(Seq::empty(), omit_scan(pattern, acc@, token@, all, 1)) =~= omit_scan(
        pattern,
        acc@,
        token@,
        all,
        1,
    ));
    while k < cols.len()
        invariant
            re@ == pattern,
            pattern == omit_csv_col_re@,
            regex_compiles(pattern),
            all == texts(cols@),
            k <= cols.len(),
            omit_columns(pattern, temp@, token@, all) == prepend_columns(
                texts(kept@),
                omit_scan(pattern, acc@, token@, all.skip(k as int), (k + 1) as nat),
            ),
        decreases cols.len() - k,
    {
        let col = cols[k].as_str();
        let ghost rest = all.skip(k as int);
        assert(rest[0] == col@);
        assert(rest.drop_first() =~= all.skip(k + 1));
                let omit = pattern_matches(&re, col);
        let shown = if omit {
            String::new()
        } else {
            cols[k].clone()
        };
        match try_replace_token_in_template(token, k + 1, acc, shown.as_str(), verbose) {
            Err(e) => {
                return Err(e);
            },
            Ok(t) => {
                acc = t;
            },
        }
        let ghost before = texts(kept@);
        kept.push(shown);
        assert(texts(kept@) =~= before + seq![shown@]);
        proof {
            let later = omit_scan(
                pattern,
                acc@,
                token@,
                all.skip(k + 1),
                (k + 2) as nat,
            );
            assert(prepend_columns(before, prepend_columns(seq![shown@], later)) =~= prepend_columns(
                texts(kept@),
                later,
            )) by {
                match later {
                    Err(e) => {},
                    Ok((t, more)) => {
                        assert(before + (seq![shown@] + more) =~= texts(kept@) + more);
                    },
                }
            }
        }
        k = k + 1;
    }
    assert(all.skip(k as int) =~= Seq::<Seq<char>>::empty());
    assert(texts(kept@) + Seq::<Seq<char>>::empty() =~= texts(kept@));
    Ok((acc, kept))
}

/// Blanks the columns that `omit_csv_col_re` matches and expands every
/// column, blanked ones as empty text, one after the other in the template,
/// numbered from 1; see
/// [`omit_columns`]. The inputs on which this fails (a pattern that does not
/// compile, or a failing expansion) are left out; [`try_omit_cols_by_re`]
/// takes every input.
pub fn omit_cols_by_re(
    omit_csv_col_re: &str,
    temp: String,
    cols: Vec<String>,
    token: &str,
    trim_endlines: bool,
    verbose: bool,
) -> (r: (String, Vec<String>))
    requires
        omit_columns(omit_csv_col_re@, temp@, token@, texts(cols@)) is Ok,
    ensures
        omit_columns(omit_csv_col_re@, temp@, token@, texts(cols@)) == Ok::<
            (Seq<char>, Seq<Seq<char>>),
            BuildError,
        >((r.0@, texts(r.1@))),
{
    try_omit_cols_by_re(omit_csv_col_re, temp, cols, token, trim_endlines, verbose).unwrap()
}

/// Text in front of the text a later step gives.
pub open spec fn prepend_text(front: Seq<char>, r: Result<Seq<char>, BuildError>) -> Result<
    Seq<char>,
    BuildError,
> {
    match r {
        Err(e) => Err(e),
        Ok(t) => Ok(front + t),
    }
}

/// The pieces of `s` between occurrences of `d`, as owned strings.
pub fn split_to_strings(s: &str, d: &str) -> (v: Vec<String>)
    ensures
        texts(v@) == split_pieces(s@, d@),
{
    let pieces = split_text(s, d);
    let mut v: Vec<String> = Vec::new();
    let mut k: usize = 0;
    while k < pieces.len()
        invariant
            0 <= k <= pieces.len(),
            pieces@.len() == split_pieces(s@, d@).len(),
            forall|j: int| 0 <= j < pieces@.len() ==> #[trigger] pieces@[j]@ == split_pieces(s@, d@)[j],
            texts(v@) == split_pieces(s@, d@).take(k as int),
        decreases pieces.len() - k,
    {
        let ghost before = texts(v@);
        v.push(pieces[k].to_owned());
        assert(texts(v@) =~= split_pieces(s@, d@).take(k + 1)) by {
            assert(texts(v@) =~= before + seq![pieces@[k as int]@]);
        }
        k = k + 1;
    }
    assert(split_pieces(s@, d@).take(k as int) =~= split_pieces(s@, d@));
    v
}

/// The columns expanded one after the other, numbered from 1.
fn expand_columns_from_one(token: &str, template: String, cols: &Vec<String>, verbose: bool) -> (r:
    Result<String, BuildError>)
    ensures
        text_result(r) == expand_columns(token@, 1, template@, texts(cols@)),
{
    let ghost all = texts(cols@);
    let mut acc = template;
    let mut k: usize = 0;
    assert(all.skip(0) =~= all);
    while k < cols.len()
        invariant
            all == texts(cols@),
            0 <= k <= cols.len(),
            expand_columns(token@, 1, template@, all) == expand_columns(
                token@,
                (k + 1) as nat,
                acc@,
                all.skip(k as int),
            ),
        decreases cols.len() - k,
    {
        let ghost rest = all.skip(k as int);
        assert(rest[0] == cols@[k as int]@);
        assert(rest.drop_first() =~= all.skip(k + 1));
        match try_replace_token_in_template(token, k + 1, acc, cols[k].as_str(), verbose) {
            Err(e) => {
                return Err(e);
            },
            Ok(t) => {
                acc = t;
            },
        }
        k = k + 1;
    }
    assert(all.skip(k as int) =~= Seq::<Seq<char>>::empty());
    Ok(acc)
}

/// One entry expanded; see [`entry_outcome`].
pub(crate) fn expand_entry(
    entry: &str,
    template: &String,
    col_del: &str,
    token: &str,
    trim_endlines: bool,
    verbose: bool,
    omit_csv_col_re: &str,
) -> (r: Result<String, BuildError>)
    ensures
        text_result(r) == entry_outcome(entry@, template@, col_del@, token@, omit_csv_col_re@),
{
    let cols = split_to_strings(entry, col_del);
    if !omit_csv_col_re.is_empty() {
        match try_omit_cols_by_re(omit_csv_col_re, template.clone(), cols, token, trim_endlines, verbose) {
            Err(e) => Err(e),
            Ok((t, _)) => Ok(t),
        }
    } else {
        expand_columns_from_one(token, template.clone(), &cols, verbose)
    }
}

/// Expands the columns of the delimited `entry` in `template`, which is left
/// holding the result as well; see [`entry_outcome`] for the result. The
/// inputs on which expansion fails are left out; [`try_build_output_from_entry`]
/// takes every input.
#[allow(non_snake_case)]
pub fn buildOutputFromEntry(
    entry: String,
    template: &mut String,
    col_del: &str,
    token: &str,
    trim_endlines: bool,
    verbose: bool,
    omit_csv_col_re: &str,
) -> (r: String)
    requires
        entry_outcome(entry@, old(template)@, col_del@, token@, omit_csv_col_re@) is Ok,
    ensures
        r@ == entry_outcome(entry@, old(template)@, col_del@, token@, omit_csv_col_re@)->Ok_0,
        final(template)@ == r@,
{
    let out = expand_entry(
        entry.as_str(),
        template,
        col_del,
        token,
        trim_endlines,
        verbose,
        omit_csv_col_re,
    ).unwrap();
    *template = out.clone();
    out
}

/// [`buildOutputFromEntry`] for every input: the error of
/// [`entry_outcome`] where expansion fails, with `template` left as it was.
pub fn try_build_output_from_entry(
    entry: String,
    template: &mut String,
    col_del: &str,
    token: &str,
    trim_endlines: bool,
    verbose: bool,
    omit_csv_col_re: &str,
) -> (r: Result<String, BuildError>)
    ensures
        text_result(r) == entry_outcome(entry@, old(template)@, col_del@, token@, omit_csv_col_re@),
        r is Ok ==> final(template)@ == r->Ok_0@,
        r is Err ==> final(template)@ == old(template)@,
{
    let r = expand_entry(
        entry.as_str(),
        template,
        col_del,
        token,
        trim_endlines,
        verbose,
        omit_csv_col_re,
    );
    if let Ok(out) = &r {
        *template = out.clone();
    }
    r
}

/// The rows that the compiled pattern does not match, in order.
pub(crate) fn filter_unmatched<'a>(re: &CompiledPattern, cols: Vec<&'a str>) -> (kept: Vec<&'a str>)
    ensures
        slice_texts(kept@) == unmatched(re@, slice_texts(cols@)),
{
    let ghost all = slice_texts(cols@);
    let mut kept: Vec<&'a str> = Vec::new();
    let mut k: usize = 0;
    assert(all.skip(0) =~= all);
    assert(slice_texts(kept@) =~= Seq::<Seq<char>>::empty());
    while k < cols.len()
        invariant
            all == slice_texts(cols@),
            0 <= k <= cols.len(),
            unmatched(re@, all) == slice_texts(kept@) + unmatched(re@, all.skip(k as int)),
        decreases cols.len() - k,
    {
        let ghost rest = all.skip(k as int);
        assert(rest[0] == cols@[k as int]@);
        assert(rest.drop_first() =~= all.skip(k + 1));
        let ghost before = slice_texts(kept@);
        if !pattern_matches(re, cols[k]) {
            kept.push(cols[k]);
            assert(slice_texts(kept@) =~= before + seq![rest[0]]);
            assert(unmatched(re@, all) =~= slice_texts(kept@) + unmatched(re@, all.skip(k + 1)));
        } else {
            assert(unmatched(re@, all) =~= slice_texts(kept@) + unmatched(re@, all.skip(k + 1)));
        }
        k = k + 1;
    }
    assert(all.skip(k as int) =~= Seq::<Seq<char>>::empty());
    assert(unmatched(re@, all) =~= slice_texts(kept@));
    kept
}

/// Keeps the rows that `omit_csv_row_re` does not match; see [`omit_rows`]
/// for the rows kept and the error for a pattern that does not compile.
pub fn try_omit_rows_by_re<'a>(omit_csv_row_re: &str, cols: Vec<&'a str>) -> (r: Result<
    Vec<&'a str>,
    BuildError,
>)
    ensures
        match r {
            Ok(kept) => omit_rows(omit_csv_row_re@, slice_texts(cols@)) == Ok::<
                Seq<Seq<char>>,
                BuildError,
            >(slice_texts(kept@)),
            Err(e) => omit_rows(omit_csv_row_re@, slice_texts(cols@)) == Err::<
                Seq<Seq<char>>,
                BuildError,
            >(e),
        },
{
    match compile_pattern(omit_csv_row_re) {
        Ok(re) => Ok(filter_unmatched(&re, cols)),
        Err(_) => Err(BuildError::InvalidOmitRowPattern),
    }
}

/// Keeps the rows that `omit_csv_row_re` does not match; see [`omit_rows`].
/// The pattern must compile; [`try_omit_rows_by_re`] takes every pattern.
pub fn omit_rows_by_re<'a>(omit_csv_row_re: &str, cols: Vec<&'a str>) -> (kept: Vec<&'a str>)
    requires
        omit_rows(omit_csv_row_re@, slice_texts(cols@)) is Ok,
    ensures
        slice_texts(kept@) == omit_rows(omit_csv_row_re@, slice_texts(cols@))->Ok_0,
{
    try_omit_rows_by_re(omit_csv_row_re, cols).unwrap()
}

/// The token, trimmed of trailing carriage returns and then line feeds when
/// asked.
fn trim_token<'a>(token: &'a str, trim_endlines: bool) -> (t: &'a str)
    ensures
        t@ == trimmed_token(token@, trim_endlines),
{
    if trim_endlines {
        trim_end_text(trim_end_text(token, '\r'), '\n')
    } else {
        token
    }
}

/// One row expanded; see [`row_outcome`].
fn expand_row(
    row: &str,
    template: &String,
    col_del: &str,
    token: &str,
    trim_endlines: bool,
    verbose: bool,
    omit_col: &str,
) -> (r: Result<String, BuildError>)
    ensures
        text_result(r) == row_outcome(row@, template@, col_del@, token@, trim_endlines, omit_col@),
{
    let cols = split_to_strings(row, col_del);
    let trimmed = trim_token(token, trim_endlines);
    if !omit_col.is_empty() {
        match try_omit_cols_by_re(omit_col, template.clone(), cols, trimmed, trim_endlines, verbose) {
            Err(e) => Err(e),
            Ok((t, _)) => Ok(t),
        }
    } else {
        expand_columns_from_one(trimmed, template.clone(), &cols, verbose)
    }
}

/// The whole output, assembled in a string builder; see
/// [`build_output_outcome`].
fn build_output_text(
    input: &String,
    template: &String,
    col_del: &str,
    row_del: &str,
    token: &str,
    trim_endlines: bool,
    verbose: bool,
    omit_csv_csv_re: &str,
    omit_csv_row_re: &str,
) -> (r: Result<String, BuildError>)
    ensures
        text_result(r) == build_output_outcome(
            input@,
            template@,
            col_del@,
            row_del@,
            token@,
            trim_endlines,
            omit_csv_csv_re@,
            omit_csv_row_re@,
        ),
{
    let mut rows = split_text(input.as_str(), row_del);
    assert(slice_texts(rows@) =~= split_pieces(input@, row_del@));
    if !omit_csv_row_re.is_empty() {
        rows = match try_omit_rows_by_re(omit_csv_row_re, rows) {
            Ok(kept) => kept,
            Err(e) => {
                return Err(e);
            },
        };
    }
    let ghost all = slice_texts(rows@);
    let ghost want = rows_outcome(all, template@, col_del@, token@, trim_endlines, omit_csv_csv_re@);
    assert(build_output_outcome(
        input@,
        template@,
        col_del@,
        row_del@,
        token@,
        trim_endlines,
        omit_csv_csv_re@,
        omit_csv_row_re@,
    ) == want);
    let mut builder = new_builder();
    let ghost mut acc: Seq<char> = Seq::empty();
    let mut k: usize = 0;
    assert(all.skip(0) =~= all);
    assert(prepend_text(acc, want) =~= want);
    while k < rows.len()
        invariant
            all == slice_texts(rows@),
            want == rows_outcome(all, template@, col_del@, token@, trim_endlines, omit_csv_csv_re@),
            want == build_output_outcome(
                input@,
                template@,
                col_del@,
                row_del@,
                token@,
                trim_endlines,
                omit_csv_csv_re@,
                omit_csv_row_re@,
            ),
            0 <= k <= rows.len(),
            builder_bytes(builder) == encode_utf8(acc),
            want == prepend_text(
                acc,
                rows_outcome(
                    all.skip(k as int),
                    template@,
                    col_del@,
                    token@,
                    trim_endlines,
                    omit_csv_csv_re@,
                ),
            ),
        decreases rows.len() - k,
    {
        let ghost rest = all.skip(k as int);
        assert(rest[0] == rows@[k as int]@);
        assert(rest.drop_first() =~= all.skip(k + 1));
        let piece = match expand_row(
            rows[k],
            template,
            col_del,
            token,
            trim_endlines,
            verbose,
            omit_csv_csv_re,
        ) {
            Ok(t) => t,
            Err(e) => {
                assert(rows_outcome(
                    rest,
                    template@,
                    col_del@,
                    token@,
                    trim_endlines,
                    omit_csv_csv_re@,
                ) == Err::<Seq<char>, BuildError>(e));
                return Err(e);
            },
        };
        builder_append(&mut builder, piece.as_str());
        proof {
            lemma_encode_concat(acc, piece@);
            let later = rows_outcome(
                all.skip(k + 1),
                template@,
                col_del@,
                token@,
                trim_endlines,
                omit_csv_csv_re@,
            );
            match later {
                Err(e) => {},
                Ok(t) => {
                    assert(acc + (piece@ + t) =~= (acc + piece@) + t);
                },
            }
            acc = acc + piece@;
        }
        k = k + 1;
    }
    assert(all.skip(k as int) =~= Seq::<Seq<char>>::empty());
    assert(acc + Seq::<char>::empty() =~= acc);
    Ok(builder_text(builder))
}

/// Expands the template once for each row of `input` and concatenates the
/// results; see [`build_output_outcome`]. The inputs on which expansion fails
/// are left out; [`try_build_output`] takes every input.
#[allow(non_snake_case)]
pub fn buildOutput(
    input: &String,
    template: String,
    col_del: &str,
    row_del: &str,
    token: &str,
    trim_endlines: bool,
    verbose: bool,
    omit_csv_csv_re: &str,
    omit_csv_row_re: &str,
) -> (r: String)
    requires
        build_output_outcome(
            input@,
            template@,
            col_del@,
            row_del@,
            token@,
            trim_endlines,
            omit_csv_csv_re@,
            omit_csv_row_re@,
        ) is Ok,
    ensures
        r@ == build_output_outcome(
            input@,
            template@,
            col_del@,
            row_del@,
            token@,
            trim_endlines,
            omit_csv_csv_re@,
            omit_csv_row_re@,
        )->Ok_0,
{
    build_output_text(
        input,
        &template,
        col_del,
        row_del,
        token,
        trim_endlines,
        verbose,
        omit_csv_csv_re,
        omit_csv_row_re,
    ).unwrap()
}

/// [`buildOutput`] for every input: the error of [`build_output_outcome`]
/// where expansion fails.
pub fn try_build_output(
    input: &String,
    template: String,
    col_del: &str,
    row_del: &str,
    token: &str,
    trim_endlines: bool,
    verbose: bool,
    omit_csv_csv_re: &str,
    omit_csv_row_re: &str,
) -> (r: Result<String, BuildError>)
    ensures
        text_result(r) == build_output_outcome(
            input@,
            template@,
            col_del@,
            row_del@,
            token@,
            trim_endlines,
            omit_csv_csv_re@,
            omit_csv_row_re@,
        ),
{
    build_output_text(
        input,
        &template,
        col_del,
        row_del,
        token,
        trim_endlines,
        verbose,
        omit_csv_csv_re,
        omit_csv_row_re,
    )
}

} // verus!
