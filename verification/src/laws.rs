//! Properties that hold of every input.

use vstd::prelude::*;

use crate::buildre::{big_rows, buildre_outcome, csv_row_output, csv_rows_output, span_texts};
use crate::error::BuildError;
use crate::pattern::{regex_compiles, regex_find_spans, regex_is_match, regex_named_group};
use crate::records::{mapped_rows, row_maps_to};
use crate::template::{
    build_output_outcome, entry_outcome, expand_columns, expand_token, isolator_pattern, qualified_step, omit_columns, omit_scan, prepend_text, qualifier_pattern,
    rows_outcome, token_label, unmatched,
};
use crate::text::{
    contains, decimal, digit_char, digits_value, is_digit, join_pieces, occurs_at, parse_usize_spec,
    replace_limited, replace_scan, replace_whole, replace_whole_scan, split_pieces, split_scan,
    unsigned_body, byte_len, byte_range, occurs_whole_at,
};
use vstd::utf8::{decode_utf8, encode_utf8};

verus! {

proof fn lemma_split_scan_nonempty(s: Seq<char>, d: Seq<char>, start: int, i: int)
    requires
        0 <= start <= i <= s.len(),
    ensures
        split_scan(s, d, start, i).len() >= 1,
    decreases s.len() - i,
{
    if d.len() == 0 || i + d.len() > s.len() {
    } else if occurs_at(s, d, i) {
        lemma_split_scan_nonempty(s, d, i + d.len(), i + d.len());
    } else {
        lemma_split_scan_nonempty(s, d, start, i + 1);
    }
}

proof fn lemma_join_scan(s: Seq<char>, d: Seq<char>, start: int, i: int)
    requires
        d.len() > 0,
        0 <= start <= i <= s.len(),
    ensures
        join_pieces(split_scan(s, d, start, i), d) == s.subrange(start, s.len() as int),
    decreases s.len() - i,
{
    if i + d.len() > s.len() {
    } else if occurs_at(s, d, i) {
        let j = i + d.len();
        lemma_join_scan(s, d, j, j);
        lemma_split_scan_nonempty(s, d, j, j);
        let rest = split_scan(s, d, j, j);
        let pieces = seq![s.subrange(start, i)] + rest;
        assert(pieces.drop_first() =~= rest);
        assert(pieces[0] == s.subrange(start, i));
        assert(s.subrange(start, i) + d + s.subrange(j, s.len() as int) =~= s.subrange(
            start,
            s.len() as int,
        ));
    } else {
        lemma_join_scan(s, d, start, i + 1);
    }
}

/// Splitting on a non-empty delimiter loses nothing: joining the pieces
/// back with the delimiter gives the original text.
pub proof fn lemma_split_then_join(s: Seq<char>, d: Seq<char>)
    requires
        d.len() > 0,
    ensures
        join_pieces(split_pieces(s, d), d) == s,
{
    lemma_join_scan(s, d, 0, 0);
    assert(s.subrange(0, s.len() as int) =~= s);
}

proof fn lemma_decimal_digits(n: nat)
    ensures
        decimal(n).len() > 0,
        forall|k: int| 0 <= k < decimal(n).len() ==> is_digit(#[trigger] decimal(n)[k]),
        digits_value(decimal(n)) == n,
    decreases n,
{
    let d = (n % 10) as nat;
    assert((digit_char(d) as u32) == 48 + d);
    if n < 10 {
        assert(decimal(n) =~= seq![digit_char(n)]);
        assert(decimal(n).drop_last() =~= Seq::<char>::empty());
        assert(decimal(n).last() == digit_char(n));
        assert(digits_value(Seq::<char>::empty()) == 0);
        assert(digits_value(decimal(n)) == digits_value(decimal(n).drop_last()) * 10 + ((decimal(
            n,
        ).last() as u32) - 48) as nat);
    } else {
        lemma_decimal_digits(n / 10);
        let front = decimal(n / 10);
        assert(decimal(n) == front + seq![digit_char(d)]);
        assert(decimal(n).drop_last() =~= front);
        assert(decimal(n).last() == digit_char(d));
        assert(n == (n / 10) * 10 + d) by (nonlinear_arith)
            requires
                d == n % 10,
        ;
        assert(digits_value(decimal(n)) == digits_value(front) * 10 + ((digit_char(d) as u32) - 48) as nat);
        assert forall|k: int| 0 <= k < decimal(n).len() implies is_digit(#[trigger] decimal(n)[k]) by {
            if k < front.len() {
                assert(decimal(n)[k] == front[k]);
            }
        }
    }
}

/// The decimal rendering used to number tokens reads back as the same
/// number.
pub proof fn lemma_decimal_parses_back(n: nat)
    requires
        n <= usize::MAX,
    ensures
        parse_usize_spec(decimal(n)) == Some(n),
{
    lemma_decimal_digits(n);
    assert(is_digit(decimal(n)[0]));
    assert(unsigned_body(decimal(n)) == decimal(n));
}

pub(crate) proof fn lemma_scan_without_occurrence(
    s: Seq<char>,
    p: Seq<char>,
    r: Seq<char>,
    start: int,
    i: int,
    limit: Option<nat>,
)
    requires
        p.len() > 0,
        0 <= start <= i <= s.len(),
        !contains(s, p),
    ensures
        replace_scan(s, p, r, start, i, limit) == s.subrange(start, s.len() as int),
    decreases s.len() - i,
{
    if i + p.len() > s.len() || limit == Some(0nat) {
    } else {
        assert(!occurs_at(s, p, i));
        lemma_scan_without_occurrence(s, p, r, start, i + 1, limit);
    }
}

/// Replacing a non-empty pattern that does not occur leaves the text as it
/// was, whatever the bound on replacements.
pub proof fn lemma_absent_pattern_untouched(
    s: Seq<char>,
    p: Seq<char>,
    r: Seq<char>,
    limit: Option<nat>,
)
    requires
        p.len() > 0,
        !contains(s, p),
    ensures
        replace_limited(s, p, r, limit) == s,
{
    lemma_scan_without_occurrence(s, p, r, 0, 0, limit);
    assert(s.subrange(0, s.len() as int) =~= s);
}

proof fn lemma_whole_scan_without_occurrence(s: Seq<char>, p: Seq<char>, r: Seq<char>, start: int, i: int)
    requires
        p.len() > 0,
        0 <= start <= i <= s.len(),
        !contains(s, p),
    ensures
        replace_whole_scan(s, p, r, start, i) == s.subrange(start, s.len() as int),
    decreases s.len() - i,
{
    if i + p.len() <= s.len() {
        assert(!occurs_at(s, p, i));
        lemma_whole_scan_without_occurrence(s, p, r, start, i + 1);
    }
}

/// A template in which a column's token does not occur, and in which no
/// qualified occurrence is found, comes out of that column's expansion
/// unchanged.
pub proof fn lemma_absent_token_untouched(
    token: Seq<char>,
    index: nat,
    template: Seq<char>,
    col: Seq<char>,
)
    requires
        !contains(template, token_label(token, index)),
        regex_compiles(qualifier_pattern(token_label(token, index))) ==> regex_find_spans(
            qualifier_pattern(token_label(token, index)),
            template,
        ).len() == 0,
    ensures
        expand_token(token, index, template, col) == Ok::<Seq<char>, BuildError>(template),
{
    lemma_decimal_digits(index);
    lemma_whole_scan_without_occurrence(template, token_label(token, index), col, 0, 0);
    assert(template.subrange(0, template.len() as int) =~= template);
}

proof fn lemma_unmatched_rows_unmatched(pattern: Seq<char>, rows: Seq<Seq<char>>)
    ensures
        forall|k: int|
            0 <= k < unmatched(pattern, rows).len() ==> !regex_is_match(
                pattern,
                #[trigger] unmatched(pattern, rows)[k],
            ),
    decreases rows.len(),
{
    if rows.len() > 0 {
        lemma_unmatched_rows_unmatched(pattern, rows.drop_first());
        let head: Seq<Seq<char>> = if regex_is_match(pattern, rows[0]) {
            Seq::empty()
        } else {
            seq![rows[0]]
        };
        let tail = unmatched(pattern, rows.drop_first());
        assert forall|k: int|
            0 <= k < unmatched(pattern, rows).len() implies !regex_is_match(
            pattern,
            #[trigger] unmatched(pattern, rows)[k],
        ) by {
            if k < head.len() {
                assert(unmatched(pattern, rows)[k] == rows[0]);
            } else {
                assert(unmatched(pattern, rows)[k] == tail[k - head.len()]);
            }
        }
    }
}

proof fn lemma_unmatched_keeps_unmatched(pattern: Seq<char>, rows: Seq<Seq<char>>)
    requires
        forall|k: int| 0 <= k < rows.len() ==> !regex_is_match(pattern, #[trigger] rows[k]),
    ensures
        unmatched(pattern, rows) == rows,
    decreases rows.len(),
{
    if rows.len() > 0 {
        assert(!regex_is_match(pattern, rows[0]));
        assert forall|k: int| 0 <= k < rows.drop_first().len() implies !regex_is_match(
            pattern,
            #[trigger] rows.drop_first()[k],
        ) by {
            assert(rows.drop_first()[k] == rows[k + 1]);
        }
        lemma_unmatched_keeps_unmatched(pattern, rows.drop_first());
        assert(seq![rows[0]] + rows.drop_first() =~= rows);
    }
}

/// Omitting rows twice with the same pattern omits nothing more: every kept
/// row is one the pattern does not match.
pub proof fn lemma_omission_idempotent(pattern: Seq<char>, rows: Seq<Seq<char>>)
    ensures
        unmatched(pattern, unmatched(pattern, rows)) == unmatched(pattern, rows),
        forall|k: int|
            0 <= k < unmatched(pattern, rows).len() ==> !regex_is_match(
                pattern,
                #[trigger] unmatched(pattern, rows)[k],
            ),
{
    lemma_unmatched_rows_unmatched(pattern, rows);
    lemma_unmatched_keeps_unmatched(pattern, unmatched(pattern, rows));
}

/// A token whose qualifier-finding expression does not compile (as with the
/// default token `???`) is expanded by plain replacement: every copy of the
/// column's token that no further digit follows becomes the column's text.
pub proof fn lemma_unqualified_expansion(
    token: Seq<char>,
    index: nat,
    template: Seq<char>,
    col: Seq<char>,
)
    requires
        !regex_compiles(qualifier_pattern(token_label(token, index))),
    ensures
        expand_token(token, index, template, col) == Ok::<Seq<char>, BuildError>(
            replace_whole(template, token_label(token, index), col),
        ),
{
}

proof fn lemma_split_scan_shift(p: Seq<char>, b: Seq<char>, d: Seq<char>, start: int, i: int)
    requires
        d.len() > 0,
        0 <= start <= i <= b.len(),
    ensures
        split_scan(p + b, d, p.len() + start, p.len() + i) == split_scan(b, d, start, i),
    decreases b.len() - i,
{
    let s = p + b;
    let k = p.len() as int;
    if i + d.len() > b.len() {
        assert(s.subrange(k + start, s.len() as int) =~= b.subrange(start, b.len() as int));
    } else {
        assert(s.subrange(k + i, k + i + d.len()) =~= b.subrange(i, i + d.len()));
        if occurs_at(b, d, i) {
            assert(s.subrange(k + start, k + i) =~= b.subrange(start, i));
            lemma_split_scan_shift(p, b, d, i + d.len(), i + d.len());
        } else {
            lemma_split_scan_shift(p, b, d, start, i + 1);
        }
    }
}

proof fn lemma_split_scan_cut_at(a: Seq<char>, d: Seq<char>, b: Seq<char>, st: int, i: int)
    requires
        d.len() > 0,
        0 <= st <= i <= a.len() + d.len(),
        st <= a.len(),
        split_scan(a + d, d, st, i) == split_scan(a, d, st, i) + seq![Seq::<char>::empty()],
    ensures
        split_scan(a + d + b, d, st, i) == split_scan(a, d, st, i) + split_scan(
            a + d + b,
            d,
            (a.len() + d.len()) as int,
            (a.len() + d.len()) as int,
        ),
    decreases a.len() + d.len() - i,
{
    let t = a + d;
    let s = t + b;
    let n = a.len() as int;
    let m = d.len() as int;
    let tail = split_scan(s, d, n + m, n + m);
    if i + m > t.len() {
        assert(split_scan(t, d, st, i).len() == 1);
        assert(split_scan(a, d, st, i).len() == 1);
    } else {
        assert(s.subrange(i, i + m) =~= t.subrange(i, i + m));
        if occurs_at(t, d, i) {
            if i == n {
                assert(split_scan(t, d, n + m, n + m) == seq![t.subrange(n + m, n + m)]);
                assert(s.subrange(st, n) =~= a.subrange(st, n));
                assert(split_scan(a, d, st, i) == seq![a.subrange(st, n)]);
                assert(seq![a.subrange(st, n)] + tail =~= split_scan(a, d, st, i) + tail);
            } else if i + m <= n {
                assert(a.subrange(i, i + m) =~= t.subrange(i, i + m));
                assert(s.subrange(st, i) =~= a.subrange(st, i));
                assert(t.subrange(st, i) =~= a.subrange(st, i));
                let x = split_scan(t, d, i + m, i + m);
                let y = split_scan(a, d, i + m, i + m);
                assert(x =~= (split_scan(t, d, st, i)).drop_first());
                assert((seq![a.subrange(st, i)] + y + seq![Seq::<char>::empty()]).drop_first() =~= y
                    + seq![Seq::<char>::empty()]);
                assert(x == y + seq![Seq::<char>::empty()]);
                lemma_split_scan_cut_at(a, d, b, i + m, i + m);
                assert(seq![a.subrange(st, i)] + (y + tail) =~= (seq![a.subrange(st, i)] + y)
                    + tail);
            } else {
                let j = i + m;
                assert(split_scan(t, d, j, j) == seq![t.subrange(j, t.len() as int)]);
                assert(split_scan(a, d, st, i) == seq![a.subrange(st, n)]);
                assert(split_scan(t, d, st, i)[1] == t.subrange(j, t.len() as int));
                assert((split_scan(a, d, st, i) + seq![Seq::<char>::empty()])[1] =~= Seq::<
                    char,
                >::empty());
                assert(t.subrange(j, t.len() as int).len() > 0);
            }
        } else {
            if i + m <= n {
                assert(a.subrange(i, i + m) =~= t.subrange(i, i + m));
            }
            lemma_split_scan_cut_at(a, d, b, st, i + 1);
        }
    }
}

proof fn lemma_unmatched_append(pattern: Seq<char>, x: Seq<Seq<char>>, y: Seq<Seq<char>>)
    ensures
        unmatched(pattern, x + y) == unmatched(pattern, x) + unmatched(pattern, y),
    decreases x.len(),
{
    if x.len() == 0 {
        assert(x + y =~= y);
        assert(Seq::<Seq<char>>::empty() + unmatched(pattern, y) =~= unmatched(pattern, y));
    } else {
        assert((x + y).drop_first() =~= x.drop_first() + y);
        assert((x + y)[0] == x[0]);
        lemma_unmatched_append(pattern, x.drop_first(), y);
        let head: Seq<Seq<char>> = if regex_is_match(pattern, x[0]) {
            Seq::empty()
        } else {
            seq![x[0]]
        };
        assert(head + (unmatched(pattern, x.drop_first()) + unmatched(pattern, y)) =~= (head
            + unmatched(pattern, x.drop_first())) + unmatched(pattern, y));
    }
}

proof fn lemma_rows_outcome_append(
    x: Seq<Seq<char>>,
    y: Seq<Seq<char>>,
    template: Seq<char>,
    col_del: Seq<char>,
    token: Seq<char>,
    trim_endlines: bool,
    omit_col: Seq<char>,
)
    ensures
        rows_outcome(x + y, template, col_del, token, trim_endlines, omit_col) == match rows_outcome(
            x,
            template,
            col_del,
            token,
            trim_endlines,
            omit_col,
        ) {
            Err(e) => Err(e),
            Ok(s) => prepend_text(s, rows_outcome(y, template, col_del, token, trim_endlines, omit_col)),
        },
    decreases x.len(),
{
    let later = rows_outcome(y, template, col_del, token, trim_endlines, omit_col);
    if x.len() == 0 {
        assert(x + y =~= y);
        match later {
            Err(e) => {},
            Ok(t) => {
                assert(Seq::<char>::empty() + t =~= t);
            },
        }
    } else {
        assert((x + y).drop_first() =~= x.drop_first() + y);
        assert((x + y)[0] == x[0]);
        lemma_rows_outcome_append(x.drop_first(), y, template, col_del, token, trim_endlines, omit_col);
        let rest = rows_outcome(x.drop_first(), template, col_del, token, trim_endlines, omit_col);
        match (rest, later) {
            (Ok(u), Ok(t)) => {
                let head = crate::template::row_outcome(
                    x[0],
                    template,
                    col_del,
                    token,
                    trim_endlines,
                    omit_col,
                );
                match head {
                    Ok(h) => {
                        assert(h + (u + t) =~= (h + u) + t);
                    },
                    Err(e) => {},
                }
            },
            _ => {},
        }
    }
}

/// The rows of an input are built one by one and concatenated: building the
/// text `a`, the row delimiter and then `b` gives the build of `a` followed by
/// the build of `b`, wherever `a` followed by the delimiter splits into the
/// rows of `a` and one empty row (no occurrence of the delimiter is found
/// across the end of `a`). The first error, in row order, is the error of
/// the whole.
pub proof fn lemma_build_concatenates_rows(
    a: Seq<char>,
    b: Seq<char>,
    template: Seq<char>,
    col_del: Seq<char>,
    row_del: Seq<char>,
    token: Seq<char>,
    trim_endlines: bool,
    omit_col: Seq<char>,
    omit_row: Seq<char>,
)
    requires
        row_del.len() > 0,
        split_pieces(a + row_del, row_del) == split_pieces(a, row_del) + seq![Seq::<char>::empty()],
    ensures
        build_output_outcome(
            a + row_del + b,
            template,
            col_del,
            row_del,
            token,
            trim_endlines,
            omit_col,
            omit_row,
        ) == match build_output_outcome(
            a,
            template,
            col_del,
            row_del,
            token,
            trim_endlines,
            omit_col,
            omit_row,
        ) {
            Err(e) => Err(e),
            Ok(s) => prepend_text(
                s,
                build_output_outcome(
                    b,
                    template,
                    col_del,
                    row_del,
                    token,
                    trim_endlines,
                    omit_col,
                    omit_row,
                ),
            ),
        },
{
    let d = row_del;
    lemma_split_scan_cut_at(a, d, b, 0, 0);
    lemma_split_scan_shift(a + d, b, d, 0, 0);
    let rows_a = split_pieces(a, d);
    assert(split_pieces(a + d + b, d) == rows_a + split_pieces(b, d));
    let rows_b = split_pieces(b, d);
    if omit_row.len() > 0 && regex_compiles(omit_row) {
        lemma_unmatched_append(omit_row, rows_a, rows_b);
        lemma_rows_outcome_append(
            unmatched(omit_row, rows_a),
            unmatched(omit_row, rows_b),
            template,
            col_del,
            token,
            trim_endlines,
            omit_col,
        );
    } else if omit_row.len() == 0 {
        lemma_rows_outcome_append(rows_a, rows_b, template, col_del, token, trim_endlines, omit_col);
    }
    match build_output_outcome(a, template, col_del, row_del, token, trim_endlines, omit_col, omit_row) {
        Ok(t) => {
            assert(t + Seq::<char>::empty() =~= t);
        },
        Err(e) => {},
    }
}

/// A column as the omission step gives it back: blanked when the pattern
/// matches it.
pub open spec fn shown_column(pattern: Seq<char>, col: Seq<char>) -> Seq<char> {
    if regex_is_match(pattern, col) {
        Seq::empty()
    } else {
        col
    }
}

proof fn lemma_omit_scan_columns(
    pattern: Seq<char>,
    template: Seq<char>,
    token: Seq<char>,
    cols: Seq<Seq<char>>,
    index: nat,
)
    ensures
        match omit_scan(pattern, template, token, cols, index) {
            Ok((text, kept)) => {
                &&& kept.len() == cols.len()
                &&& forall|k: int|
                    0 <= k < cols.len() ==> #[trigger] kept[k] == shown_column(pattern, cols[k])
                &&& expand_columns(token, index, template, kept) == Ok::<Seq<char>, BuildError>(text)
            },
            Err(_) => true,
        },
    decreases cols.len(),
{
    if cols.len() > 0 {
        let shown = shown_column(pattern, cols[0]);
        match expand_token(token, index, template, shown) {
            Err(_) => {},
            Ok(t) => {
                lemma_omit_scan_columns(pattern, t, token, cols.drop_first(), index + 1);
                match omit_scan(pattern, t, token, cols.drop_first(), index + 1) {
                    Err(_) => {},
                    Ok((_, rest)) => {
                        let kept = seq![shown] + rest;
                        assert(kept.drop_first() =~= rest);
                        assert forall|k: int| 0 <= k < cols.len() implies #[trigger] kept[k]
                            == shown_column(pattern, cols[k]) by {
                            if k > 0 {
                                assert(cols.drop_first()[k - 1] == cols[k]);
                                assert(kept[k] == rest[k - 1]);
                            }
                        }
                    },
                }
            },
        }
    }
}

/// Column omission keeps every column in its place and number: the columns
/// given back are as many as the columns given, each blanked when the
/// pattern matches it and left as it was otherwise, and the text is the
/// template with these columns expanded in turn, numbered from 1.
pub proof fn lemma_omission_blanks_matched_columns(
    pattern: Seq<char>,
    template: Seq<char>,
    token: Seq<char>,
    cols: Seq<Seq<char>>,
)
    requires
        omit_columns(pattern, template, token, cols) is Ok,
    ensures
        ({
            let (text, kept) = omit_columns(pattern, template, token, cols)->Ok_0;
            &&& kept.len() == cols.len()
            &&& forall|k: int|
                0 <= k < cols.len() ==> #[trigger] kept[k] == shown_column(pattern, cols[k])
            &&& expand_columns(token, 1, template, kept) == Ok::<Seq<char>, BuildError>(text)
        }),
{
    lemma_omit_scan_columns(pattern, template, token, cols, 1);
}

proof fn lemma_mapped_rows_from(
    csv_rows: Seq<Seq<char>>,
    input_row: Seq<char>,
    mapping: int,
    col_del: Seq<char>,
    first: nat,
)
    requires
        first + csv_rows.len() <= usize::MAX + 1,
    ensures
        match mapped_rows(csv_rows, input_row, mapping, col_del, first) {
            Ok(v) => {
                &&& forall|k: int|
                    0 <= k < v.len() ==> first <= #[trigger] v[k] < first + csv_rows.len()
                &&& forall|j: int, k: int| 0 <= j < k < v.len() ==> v[j] < v[k]
                &&& forall|k: int|
                    0 <= k < v.len() ==> row_maps_to(
                        split_pieces(csv_rows[#[trigger] v[k] - first], col_del),
                        mapping,
                        input_row,
                    ) == Ok::<bool, BuildError>(true)
            },
            Err(_) => true,
        },
    decreases csv_rows.len(),
{
    if csv_rows.len() > 0 {
        let rest = csv_rows.drop_first();
        lemma_mapped_rows_from(rest, input_row, mapping, col_del, first + 1);
        match row_maps_to(split_pieces(csv_rows[0], col_del), mapping, input_row) {
            Err(_) => {},
            Ok(hit) => {
                match mapped_rows(rest, input_row, mapping, col_del, first + 1) {
                    Err(_) => {},
                    Ok(more) => {
                        let head: Seq<usize> = if hit {
                            seq![first as usize]
                        } else {
                            Seq::empty()
                        };
                        let v = head + more;
                        assert forall|k: int| 0 <= k < v.len() implies first <= #[trigger] v[k]
                            < first + csv_rows.len() && row_maps_to(
                            split_pieces(csv_rows[v[k] - first], col_del),
                            mapping,
                            input_row,
                        ) == Ok::<bool, BuildError>(true) by {
                            if k < head.len() {
                                assert(v[k] == first);
                            } else {
                                assert(v[k] == more[k - head.len()]);
                                assert(rest[v[k] - (first + 1)] == csv_rows[v[k] - first]);
                            }
                        }
                        assert forall|j: int, k: int| 0 <= j < k < v.len() implies v[j] < v[k] by {
                            if j < head.len() {
                                assert(v[j] == first);
                                assert(v[k] == more[k - head.len()]);
                            } else {
                                assert(v[j] == more[j - head.len()]);
                                assert(v[k] == more[k - head.len()]);
                            }
                        }
                    },
                }
            },
        }
    }
}

/// The csv rows found for a big row are listed once each, in increasing
/// order of position, each a position of the csv rows whose mapped column
/// matches the big row.
pub proof fn lemma_mapped_rows_in_order(
    csv_rows: Seq<Seq<char>>,
    input_row: Seq<char>,
    mapping: int,
    col_del: Seq<char>,
)
    requires
        csv_rows.len() <= usize::MAX,
        mapped_rows(csv_rows, input_row, mapping, col_del, 0) is Ok,
    ensures
        ({
            let v = mapped_rows(csv_rows, input_row, mapping, col_del, 0)->Ok_0;
            &&& forall|k: int| 0 <= k < v.len() ==> #[trigger] v[k] < csv_rows.len()
            &&& forall|j: int, k: int| 0 <= j < k < v.len() ==> v[j] < v[k]
            &&& forall|k: int|
                0 <= k < v.len() ==> row_maps_to(
                    split_pieces(csv_rows[#[trigger] v[k] as int], col_del),
                    mapping,
                    input_row,
                ) == Ok::<bool, BuildError>(true)
        }),
{
    lemma_mapped_rows_from(csv_rows, input_row, mapping, col_del, 0);
}

proof fn lemma_split_scan_whole(s: Seq<char>, d: Seq<char>, i: int)
    requires
        d.len() > 0,
        0 <= i <= s.len(),
        !contains(s, d),
    ensures
        split_scan(s, d, 0, i) == seq![s],
    decreases s.len() - i,
{
    if i + d.len() > s.len() {
        assert(s.subrange(0, s.len() as int) =~= s);
    } else {
        assert(!occurs_at(s, d, i));
        lemma_split_scan_whole(s, d, i + 1);
    }
}

proof fn lemma_split_pieces_free(s: Seq<char>, d: Seq<char>, start: int, i: int)
    requires
        d.len() > 0,
        0 <= start <= i <= s.len(),
        forall|j: int| start <= j < i ==> !occurs_at(s, d, j),
    ensures
        forall|k: int|
            0 <= k < split_scan(s, d, start, i).len() ==> !contains(
                #[trigger] split_scan(s, d, start, i)[k],
                d,
            ),
    decreases s.len() - i,
{
    let m = d.len() as int;
    if i + m > s.len() {
        let piece = s.subrange(start, s.len() as int);
        assert forall|q: int| !occurs_at(piece, d, q) by {
            if occurs_at(piece, d, q) {
                assert(s.subrange(start + q, start + q + m) =~= piece.subrange(q, q + m));
                assert(occurs_at(s, d, start + q));
            }
        }
        assert(!contains(piece, d));
        assert(split_scan(s, d, start, i) == seq![piece]);
    } else if occurs_at(s, d, i) {
        let piece = s.subrange(start, i);
        assert forall|q: int| !occurs_at(piece, d, q) by {
            if occurs_at(piece, d, q) {
                assert(s.subrange(start + q, start + q + m) =~= piece.subrange(q, q + m));
                assert(occurs_at(s, d, start + q));
            }
        }
        lemma_split_pieces_free(s, d, i + m, i + m);
        let rest = split_scan(s, d, i + m, i + m);
        assert forall|k: int|
            0 <= k < split_scan(s, d, start, i).len() implies !contains(
            #[trigger] split_scan(s, d, start, i)[k],
            d,
        ) by {
            if k > 0 {
                assert(split_scan(s, d, start, i)[k] == rest[k - 1]);
            } else {
                assert(split_scan(s, d, start, i)[k] == piece);
                assert(!contains(piece, d));
            }
        }
    } else {
        lemma_split_pieces_free(s, d, start, i + 1);
        assert(split_scan(s, d, start, i) == split_scan(s, d, start, i + 1));
    }
}

/// The outcomes concatenated in order: the first error, or the texts one
/// after the other.
pub open spec fn concat_outcomes(rs: Seq<Result<Seq<char>, BuildError>>) -> Result<
    Seq<char>,
    BuildError,
>
    decreases rs.len(),
{
    if rs.len() == 0 {
        Ok(Seq::empty())
    } else {
        match rs[0] {
            Err(e) => Err(e),
            Ok(t) => prepend_text(t, concat_outcomes(rs.drop_first())),
        }
    }
}

/// The rows that stay after the row omission step, when it is asked for.
pub open spec fn kept_rows(omit_row: Seq<char>, rows: Seq<Seq<char>>) -> Seq<Seq<char>> {
    if omit_row.len() > 0 {
        unmatched(omit_row, rows)
    } else {
        rows
    }
}

proof fn lemma_rows_one_by_one(
    rows: Seq<Seq<char>>,
    template: Seq<char>,
    col_del: Seq<char>,
    row_del: Seq<char>,
    token: Seq<char>,
    trim_endlines: bool,
    omit_col: Seq<char>,
    omit_row: Seq<char>,
)
    requires
        row_del.len() > 0,
        omit_row.len() > 0 ==> regex_compiles(omit_row),
        forall|k: int| 0 <= k < rows.len() ==> split_pieces(#[trigger] rows[k], row_del) == seq![rows[k]],
    ensures
        concat_outcomes(
            Seq::new(
                rows.len(),
                |k: int|
                    build_output_outcome(
                        rows[k],
                        template,
                        col_del,
                        row_del,
                        token,
                        trim_endlines,
                        omit_col,
                        omit_row,
                    ),
            ),
        ) == rows_outcome(
            kept_rows(omit_row, rows),
            template,
            col_del,
            token,
            trim_endlines,
            omit_col,
        ),
    decreases rows.len(),
{
    let outs = Seq::new(
        rows.len(),
        |k: int|
            build_output_outcome(
                rows[k],
                template,
                col_del,
                row_del,
                token,
                trim_endlines,
                omit_col,
                omit_row,
            ),
    );
    if rows.len() > 0 {
        let rest = rows.drop_first();
        assert forall|k: int| 0 <= k < rest.len() implies split_pieces(#[trigger] rest[k], row_del)
            == seq![rest[k]] by {
            assert(rest[k] == rows[k + 1]);
        }
        lemma_rows_one_by_one(
            rest,
            template,
            col_del,
            row_del,
            token,
            trim_endlines,
            omit_col,
            omit_row,
        );
        assert(outs.drop_first() =~= Seq::new(
            rest.len(),
            |k: int|
                build_output_outcome(
                    rest[k],
                    template,
                    col_del,
                    row_del,
                    token,
                    trim_endlines,
                    omit_col,
                    omit_row,
                ),
        ));
        let head = kept_rows(omit_row, seq![rows[0]]);
        assert(split_pieces(rows[0], row_del) == seq![rows[0]]);
        assert(rows =~= seq![rows[0]] + rest);
        if omit_row.len() > 0 {
            lemma_unmatched_append(omit_row, seq![rows[0]], rest);
            assert(seq![rows[0]].drop_first() =~= Seq::<Seq<char>>::empty());
        }
        assert(kept_rows(omit_row, rows) == head + kept_rows(omit_row, rest));
        lemma_rows_outcome_append(
            head,
            kept_rows(omit_row, rest),
            template,
            col_del,
            token,
            trim_endlines,
            omit_col,
        );
        assert(outs[0] == rows_outcome(head, template, col_del, token, trim_endlines, omit_col));
    }
}

/// Each row is built alone: the build of an input is the concatenation, in
/// order, of the builds of its rows taken one at a time (a row the row
/// omission pattern matches builds to nothing), and its error is the first
/// row's error.
pub proof fn lemma_build_row_by_row(
    input: Seq<char>,
    template: Seq<char>,
    col_del: Seq<char>,
    row_del: Seq<char>,
    token: Seq<char>,
    trim_endlines: bool,
    omit_col: Seq<char>,
    omit_row: Seq<char>,
)
    requires
        row_del.len() > 0,
    ensures
        ({
            let rows = split_pieces(input, row_del);
            build_output_outcome(
                input,
                template,
                col_del,
                row_del,
                token,
                trim_endlines,
                omit_col,
                omit_row,
            ) == concat_outcomes(
                Seq::new(
                    rows.len(),
                    |k: int|
                        build_output_outcome(
                            rows[k],
                            template,
                            col_del,
                            row_del,
                            token,
                            trim_endlines,
                            omit_col,
                            omit_row,
                        ),
                ),
            )
        }),
{
    let rows = split_pieces(input, row_del);
    lemma_split_pieces_free(input, row_del, 0, 0);
    lemma_split_scan_nonempty(input, row_del, 0, 0);
    assert forall|k: int| 0 <= k < rows.len() implies split_pieces(#[trigger] rows[k], row_del)
        == seq![rows[k]] by {
        lemma_split_scan_whole(rows[k], row_del, 0);
    }
    if omit_row.len() > 0 && !regex_compiles(omit_row) {
        let outs = Seq::new(
            rows.len(),
            |k: int|
                build_output_outcome(
                    rows[k],
                    template,
                    col_del,
                    row_del,
                    token,
                    trim_endlines,
                    omit_col,
                    omit_row,
                ),
        );
        assert(outs[0] == Err::<Seq<char>, BuildError>(BuildError::InvalidOmitRowPattern));
    } else {
        lemma_rows_one_by_one(
            rows,
            template,
            col_del,
            row_del,
            token,
            trim_endlines,
            omit_col,
            omit_row,
        );
    }
}

/// In struct mode the two-input build uses its own field and column patterns
/// and column numbers: its outcome, success or error, is the same whatever
/// column indices and split patterns are given.
pub proof fn lemma_struct_mode_ignores_split_settings(
    input: Seq<char>,
    csv_row_del: Seq<char>,
    csv_col_del: Seq<char>,
    token: Seq<char>,
    regexable_input: Seq<char>,
    ind_1: nat,
    ind_2: nat,
    other_ind_1: nat,
    other_ind_2: nat,
    row_regex_str: Seq<char>,
    split_r_by: Seq<char>,
    split_column_by: Seq<char>,
    other_split_r_by: Seq<char>,
    other_split_column_by: Seq<char>,
    template: Seq<char>,
    disable_assert_row_count: bool,
    big_rows_to_skip: Seq<usize>,
    little_rows_to_skip: Seq<usize>,
    token_ind_of_table_name: nat,
    omit_csv_col_re: Seq<char>,
    omit_csv_row_re: Seq<char>,
    omit_big_row_re: Seq<char>,
)
    ensures
        buildre_outcome(
            input,
            csv_row_del,
            csv_col_del,
            token,
            regexable_input,
            ind_1,
            ind_2,
            row_regex_str,
            split_r_by,
            split_column_by,
            true,
            template,
            disable_assert_row_count,
            big_rows_to_skip,
            little_rows_to_skip,
            token_ind_of_table_name,
            omit_csv_col_re,
            omit_csv_row_re,
            omit_big_row_re,
        ) == buildre_outcome(
            input,
            csv_row_del,
            csv_col_del,
            token,
            regexable_input,
            other_ind_1,
            other_ind_2,
            row_regex_str,
            other_split_r_by,
            other_split_column_by,
            true,
            template,
            disable_assert_row_count,
            big_rows_to_skip,
            little_rows_to_skip,
            token_ind_of_table_name,
            omit_csv_col_re,
            omit_csv_row_re,
            omit_big_row_re,
        ),
{
}

proof fn lemma_unmatched_single_rows(pattern: Seq<char>, rows: Seq<Seq<char>>, d: Seq<char>)
    requires
        forall|k: int| 0 <= k < rows.len() ==> split_pieces(#[trigger] rows[k], d) == seq![rows[k]],
    ensures
        forall|k: int|
            0 <= k < unmatched(pattern, rows).len() ==> split_pieces(
                #[trigger] unmatched(pattern, rows)[k],
                d,
            ) == seq![unmatched(pattern, rows)[k]],
    decreases rows.len(),
{
    if rows.len() > 0 {
        let rest = rows.drop_first();
        assert forall|k: int| 0 <= k < rest.len() implies split_pieces(#[trigger] rest[k], d)
            == seq![rest[k]] by {
            assert(rest[k] == rows[k + 1]);
        }
        lemma_unmatched_single_rows(pattern, rest, d);
        assert(split_pieces(rows[0], d) == seq![rows[0]]);
        let head: Seq<Seq<char>> = if regex_is_match(pattern, rows[0]) {
            Seq::empty()
        } else {
            seq![rows[0]]
        };
        let tail = unmatched(pattern, rest);
        assert forall|k: int|
            0 <= k < unmatched(pattern, rows).len() implies split_pieces(
            #[trigger] unmatched(pattern, rows)[k],
            d,
        ) == seq![unmatched(pattern, rows)[k]] by {
            if k < head.len() {
                assert(unmatched(pattern, rows)[k] == rows[0]);
            } else {
                assert(unmatched(pattern, rows)[k] == tail[k - head.len()]);
            }
        }
    }
}

/// The rows that the row omission pattern keeps are built one by one, each
/// on its own with no row pattern, and the results concatenated in order
/// give the build of the whole input; the first failing kept row gives the
/// error.
pub proof fn lemma_build_kept_rows_alone(
    input: Seq<char>,
    template: Seq<char>,
    col_del: Seq<char>,
    row_del: Seq<char>,
    token: Seq<char>,
    trim_endlines: bool,
    omit_col: Seq<char>,
    omit_row: Seq<char>,
)
    requires
        row_del.len() > 0,
        omit_row.len() > 0 ==> regex_compiles(omit_row),
    ensures
        ({
            let kept = kept_rows(omit_row, split_pieces(input, row_del));
            build_output_outcome(
                input,
                template,
                col_del,
                row_del,
                token,
                trim_endlines,
                omit_col,
                omit_row,
            ) == concat_outcomes(
                Seq::new(
                    kept.len(),
                    |k: int|
                        build_output_outcome(
                            kept[k],
                            template,
                            col_del,
                            row_del,
                            token,
                            trim_endlines,
                            omit_col,
                            Seq::empty(),
                        ),
                ),
            )
        }),
{
    let rows = split_pieces(input, row_del);
    lemma_split_pieces_free(input, row_del, 0, 0);
    assert forall|k: int| 0 <= k < rows.len() implies split_pieces(#[trigger] rows[k], row_del)
        == seq![rows[k]] by {
        lemma_split_scan_whole(rows[k], row_del, 0);
    }
    let kept = kept_rows(omit_row, rows);
    if omit_row.len() > 0 {
        lemma_unmatched_single_rows(omit_row, rows, row_del);
    }
    assert(forall|k: int| 0 <= k < kept.len() ==> split_pieces(#[trigger] kept[k], row_del)
        == seq![kept[k]]);
    lemma_rows_one_by_one(
        kept,
        template,
        col_del,
        row_del,
        token,
        trim_endlines,
        omit_col,
        Seq::empty(),
    );
    assert(kept_rows(Seq::empty(), kept) == kept);
}

/// The positions, in `rows`, of the rows that `pattern` does not match, in
/// order.
pub open spec fn unmatched_positions(pattern: Seq<char>, rows: Seq<Seq<char>>) -> Seq<int>
    decreases rows.len(),
{
    if rows.len() == 0 {
        Seq::empty()
    } else {
        (if regex_is_match(pattern, rows[0]) {
            Seq::<int>::empty()
        } else {
            seq![0int]
        }) + unmatched_positions(pattern, rows.drop_first()).map_values(|x: int| x + 1)
    }
}

proof fn lemma_unmatched_positions(pattern: Seq<char>, rows: Seq<Seq<char>>)
    ensures
        ({
            let pos = unmatched_positions(pattern, rows);
            let kept = unmatched(pattern, rows);
            &&& pos.len() == kept.len()
            &&& forall|k: int|
                0 <= k < pos.len() ==> 0 <= #[trigger] pos[k] < rows.len() && kept[k] == rows[pos[k]]
            &&& forall|j: int, k: int| 0 <= j < k < pos.len() ==> pos[j] < pos[k]
            &&& forall|i: int|
                0 <= i < rows.len() && !regex_is_match(pattern, #[trigger] rows[i]) ==> exists|k: int|
                    0 <= k < pos.len() && pos[k] == i
        }),
    decreases rows.len(),
{
    if rows.len() > 0 {
        let rest = rows.drop_first();
        lemma_unmatched_positions(pattern, rest);
        let pr = unmatched_positions(pattern, rest);
        let sh = pr.map_values(|x: int| x + 1);
        let kr = unmatched(pattern, rest);
        let miss = regex_is_match(pattern, rows[0]);
        let head: Seq<int> = if miss {
            Seq::empty()
        } else {
            seq![0int]
        };
        let khead: Seq<Seq<char>> = if miss {
            Seq::empty()
        } else {
            seq![rows[0]]
        };
        let pos = head + sh;
        let kept = khead + kr;
        assert(pos == unmatched_positions(pattern, rows));
        assert(kept == unmatched(pattern, rows));
        assert forall|k: int| 0 <= k < pos.len() implies 0 <= #[trigger] pos[k] < rows.len()
            && kept[k] == rows[pos[k]] by {
            if k >= head.len() {
                let k2 = k - head.len();
                assert(pos[k] == sh[k2]);
                assert(sh[k2] == pr[k2] + 1);
                assert(kept[k] == kr[k2]);
                assert(rest[pr[k2]] == rows[pr[k2] + 1]);
            }
        }
        assert forall|j: int, k: int| 0 <= j < k < pos.len() implies pos[j] < pos[k] by {
            if k >= head.len() {
                assert(pos[k] == pr[k - head.len()] + 1);
                if j >= head.len() {
                    assert(pos[j] == pr[j - head.len()] + 1);
                } else {
                    assert(pos[j] == 0);
                }
            }
        }
        assert forall|i: int|
            0 <= i < rows.len() && !regex_is_match(pattern, #[trigger] rows[i]) implies exists|k: int|
            0 <= k < pos.len() && pos[k] == i by {
            if i == 0 {
                assert(pos[0] == 0);
            } else {
                assert(rest[i - 1] == rows[i]);
                let k2 = choose|k: int| 0 <= k < pr.len() && pr[k] == i - 1;
                assert(pos[head.len() + k2] == sh[k2]);
            }
        }
    }
}

/// The big rows, where an omission pattern is given and compiles, are exactly
/// the rows found by the big-row pattern that the omission pattern does not
/// match, in the order found: none of them is matched, each is a found row,
/// they come in increasing order of position, and every found row the pattern
/// does not match is among them.
pub proof fn lemma_big_rows_leave_out_exactly_the_omitted(
    row_regex: Seq<char>,
    omit_big_row_re: Seq<char>,
    regexable: Seq<char>,
)
    requires
        regex_compiles(row_regex),
        omit_big_row_re.len() > 0,
        regex_compiles(omit_big_row_re),
    ensures
        big_rows(row_regex, omit_big_row_re, regexable) is Ok,
        ({
            let found = span_texts(regexable, regex_find_spans(row_regex, regexable));
            let rows = big_rows(row_regex, omit_big_row_re, regexable)->Ok_0;
            &&& forall|k: int| 0 <= k < rows.len() ==> !regex_is_match(omit_big_row_re, #[trigger] rows[k])
            &&& exists|sel: Seq<int>|
                {
                    &&& sel.len() == rows.len()
                    &&& forall|k: int|
                        0 <= k < sel.len() ==> 0 <= #[trigger] sel[k] < found.len() && rows[k]
                            == found[sel[k]]
                    &&& forall|j: int, k: int| 0 <= j < k < sel.len() ==> sel[j] < sel[k]
                    &&& forall|i: int|
                        0 <= i < found.len() && !regex_is_match(omit_big_row_re, #[trigger] found[i])
                            ==> exists|k: int| 0 <= k < sel.len() && sel[k] == i
                }
        }),
{
    let found = span_texts(regexable, regex_find_spans(row_regex, regexable));
    lemma_unmatched_positions(omit_big_row_re, found);
    lemma_unmatched_rows_unmatched(omit_big_row_re, found);
    let sel = unmatched_positions(omit_big_row_re, found);
    let rows = big_rows(row_regex, omit_big_row_re, regexable)->Ok_0;
    assert(rows == unmatched(omit_big_row_re, found));
    assert(sel.len() == rows.len());
}

proof fn lemma_whole_scan_shift(q: Seq<char>, b: Seq<char>, p: Seq<char>, r: Seq<char>, st: int, i: int)
    requires
        p.len() > 0,
        0 <= st <= i <= b.len(),
    ensures
        replace_whole_scan(q + b, p, r, q.len() + st, q.len() + i) == replace_whole_scan(b, p, r, st, i),
    decreases b.len() - i,
{
    let s = q + b;
    let k = q.len() as int;
    if i + p.len() > b.len() {
        assert(s.subrange(k + st, s.len() as int) =~= b.subrange(st, b.len() as int));
    } else {
        assert(s.subrange(k + i, k + i + p.len()) =~= b.subrange(i, i + p.len()));
        if i + p.len() < b.len() {
            assert(s[k + i + p.len()] == b[i + p.len()]);
        }
        if occurs_whole_at(b, p, i) {
            assert(s.subrange(k + st, k + i) =~= b.subrange(st, i));
            lemma_whole_scan_shift(q, b, p, r, i + p.len(), i + p.len());
        } else {
            lemma_whole_scan_shift(q, b, p, r, st, i + 1);
        }
    }
}

proof fn lemma_whole_scan_past(q: Seq<char>, b: Seq<char>, p: Seq<char>, r: Seq<char>, i: int)
    requires
        p.len() > 0,
        0 <= i <= b.len(),
    ensures
        replace_whole_scan(q + b, p, r, 0, q.len() + i) == q + replace_whole_scan(b, p, r, 0, i),
    decreases b.len() - i,
{
    let s = q + b;
    let k = q.len() as int;
    if i + p.len() > b.len() {
        assert(s.subrange(0, s.len() as int) =~= q + b.subrange(0, b.len() as int));
    } else {
        assert(s.subrange(k + i, k + i + p.len()) =~= b.subrange(i, i + p.len()));
        if i + p.len() < b.len() {
            assert(s[k + i + p.len()] == b[i + p.len()]);
        }
        if occurs_whole_at(b, p, i) {
            assert(s.subrange(0, k + i) =~= q + b.subrange(0, i));
            lemma_whole_scan_shift(q, b, p, r, i + p.len(), i + p.len());
            assert(q + b.subrange(0, i) + r + replace_whole_scan(b, p, r, i + p.len(), i + p.len())
                =~= q + (b.subrange(0, i) + r + replace_whole_scan(
                b,
                p,
                r,
                i + p.len(),
                i + p.len(),
            )));
        } else {
            lemma_whole_scan_past(q, b, p, r, i + 1);
        }
    }
}

/// A token label at the start of the text that is followed by anything but a
/// decimal digit (or by nothing) is replaced, and the replacement goes on in
/// the rest of the text.
pub proof fn lemma_whole_label_is_replaced(p: Seq<char>, w: Seq<char>, r: Seq<char>)
    requires
        p.len() > 0,
        w.len() == 0 || !is_digit(w[0]),
    ensures
        replace_whole(p + w, p, r) == r + replace_whole(w, p, r),
{
    let s = p + w;
    let m = p.len() as int;
    assert(s.subrange(0, m) =~= p);
    if w.len() > 0 {
        assert(s[m] == w[0]);
    }
    assert(occurs_whole_at(s, p, 0));
    lemma_whole_scan_shift(p, w, p, r, 0, 0);
    assert(s.subrange(0, 0) + r =~= r);
}

/// A token label followed by a decimal digit is part of a longer number and
/// is kept: its first character stays, and the replacement goes on after it.
pub proof fn lemma_label_before_digit_is_kept(p: Seq<char>, w: Seq<char>, r: Seq<char>)
    requires
        p.len() > 0,
        w.len() > 0,
        is_digit(w[0]),
    ensures
        replace_whole(p + w, p, r) == seq![p[0]] + replace_whole((p + w).drop_first(), p, r),
{
    let s = p + w;
    let m = p.len() as int;
    assert(s[m] == w[0]);
    assert(!occurs_whole_at(s, p, 0));
    assert(s =~= seq![p[0]] + s.drop_first());
    lemma_whole_scan_past(seq![p[0]], s.drop_first(), p, r, 0);
}

/// A qualified token whose expression matches the column is replaced by the
/// text of capture group `a` alone: two columns whose group `a` texts are the
/// same give the same result, whatever else they hold.
pub proof fn lemma_qualified_token_takes_group_text(
    label: Seq<char>,
    col1: Seq<char>,
    col2: Seq<char>,
    template: Seq<char>,
    acc: Seq<char>,
    span: (usize, usize),
    g: (usize, usize),
    a1: (usize, usize),
    a2: (usize, usize),
)
    requires
        regex_compiles(isolator_pattern(label)),
        regex_named_group(
            isolator_pattern(label),
            byte_range(template, span.0 as int, span.1 as int),
            "re"@,
        ) == Some(Some(g)),
        regex_compiles(
            byte_range(byte_range(template, span.0 as int, span.1 as int), g.0 as int, g.1 as int),
        ),
        regex_named_group(
            byte_range(byte_range(template, span.0 as int, span.1 as int), g.0 as int, g.1 as int),
            col1,
            "a"@,
        ) == Some(Some(a1)),
        regex_named_group(
            byte_range(byte_range(template, span.0 as int, span.1 as int), g.0 as int, g.1 as int),
            col2,
            "a"@,
        ) == Some(Some(a2)),
        byte_range(col1, a1.0 as int, a1.1 as int) == byte_range(col2, a2.0 as int, a2.1 as int),
    ensures
        qualified_step(label, col1, template, acc, span) == qualified_step(
            label,
            col2,
            template,
            acc,
            span,
        ),
{
}

/// When capture group `a` spans the whole column, the whole column is put in
/// place of the qualified token.
pub proof fn lemma_qualified_whole_group_gives_column(
    label: Seq<char>,
    col: Seq<char>,
    template: Seq<char>,
    acc: Seq<char>,
    span: (usize, usize),
    g: (usize, usize),
)
    requires
        byte_len(col) <= usize::MAX,
        regex_compiles(isolator_pattern(label)),
        regex_named_group(
            isolator_pattern(label),
            byte_range(template, span.0 as int, span.1 as int),
            "re"@,
        ) == Some(Some(g)),
        regex_compiles(
            byte_range(byte_range(template, span.0 as int, span.1 as int), g.0 as int, g.1 as int),
        ),
        regex_named_group(
            byte_range(byte_range(template, span.0 as int, span.1 as int), g.0 as int, g.1 as int),
            col,
            "a"@,
        ) == Some(Some((0usize, byte_len(col) as usize))),
        qualified_step(label, col, template, acc, span) is Ok,
    ensures
        qualified_step(label, col, template, acc, span) == Ok::<Seq<char>, BuildError>(
            byte_range(template, 0, span.0 as int) + col + byte_range(
                acc,
                span.1 as int,
                byte_len(template) as int,
            ),
        ),
{
    broadcast use vstd::utf8::group_utf8_lib;

    assert(encode_utf8(col).subrange(0, encode_utf8(col).len() as int) =~= encode_utf8(col));
    assert(byte_range(col, 0, byte_len(col) as int) == col);
}

/// The first column of an entry, empty or not, is column number 1, and the
/// columns after it are numbered from 2: expanding `p0`, the delimiter and
/// `rest` is expanding `p0` as column 1, then the columns of `rest` from 2,
/// where `p0` is one column (the delimiter is found neither in `p0` nor
/// across its end).
pub proof fn lemma_entry_first_column_is_number_one(
    p0: Seq<char>,
    rest: Seq<char>,
    template: Seq<char>,
    col_del: Seq<char>,
    token: Seq<char>,
)
    requires
        col_del.len() > 0,
        split_pieces(p0, col_del) == seq![p0],
        split_pieces(p0 + col_del, col_del) == seq![p0, Seq::<char>::empty()],
    ensures
        entry_outcome(p0 + col_del + rest, template, col_del, token, Seq::empty()) == match expand_token(
            token,
            1,
            template,
            p0,
        ) {
            Err(e) => Err(e),
            Ok(t) => expand_columns(token, 2, t, split_pieces(rest, col_del)),
        },
{
    let d = col_del;
    assert(split_pieces(p0, d) + seq![Seq::<char>::empty()] =~= seq![p0, Seq::<char>::empty()]);
    lemma_split_scan_cut_at(p0, d, rest, 0, 0);
    lemma_split_scan_shift(p0 + d, rest, d, 0, 0);
    let cols = split_pieces(p0 + d + rest, d);
    assert(cols == seq![p0] + split_pieces(rest, d));
    assert(cols[0] == p0);
    assert(cols.drop_first() =~= split_pieces(rest, d));
}

/// Every csv row that the two-input build turns into output gives a line of
/// its own: a successful output for at least one row ends with a line feed.
pub proof fn lemma_output_ends_with_line_feed(
    rows: Seq<Seq<char>>,
    tables: Seq<(Seq<Seq<char>>, Seq<Seq<char>>)>,
    csv_col_del: Seq<char>,
    token: Seq<char>,
    template: Seq<char>,
    omit_col: Seq<char>,
    little_skip: Seq<usize>,
    is_struct: bool,
    table_col: nat,
)
    requires
        rows.len() > 0,
        csv_rows_output(
            rows,
            tables,
            csv_col_del,
            token,
            template,
            omit_col,
            little_skip,
            is_struct,
            table_col,
        ) is Ok,
    ensures
        ({
            let out = csv_rows_output(
                rows,
                tables,
                csv_col_del,
                token,
                template,
                omit_col,
                little_skip,
                is_struct,
                table_col,
            )->Ok_0;
            out.len() > 0 && out.last() == '\n'
        }),
    decreases rows.len(),
{
    reveal_strlit("\n");
    let rest = rows.drop_first();
    let line = csv_row_output(
        rows[0],
        tables,
        csv_col_del,
        token,
        template,
        omit_col,
        little_skip,
        is_struct,
        table_col,
    )->Ok_0;
    let later = csv_rows_output(
        rest,
        tables,
        csv_col_del,
        token,
        template,
        omit_col,
        little_skip,
        is_struct,
        table_col,
    )->Ok_0;
    if rest.len() == 0 {
        assert(line + later =~= line);
        assert(line.len() > 0 && line.last() == '\n');
    } else {
        lemma_output_ends_with_line_feed(
            rest,
            tables,
            csv_col_del,
            token,
            template,
            omit_col,
            little_skip,
            is_struct,
            table_col,
        );
        assert((line + later).last() == later.last());
    }
}

} // verus!
