//! The result of filling the fields of a struct into a template one after
//! the other, as the two-input build does in struct mode.
//!
//! A template is seen as `%`-free segments with the placeholders `%COLS%`,
//! `%COL_PLACEMENTS%` and `%OBJ_COLS%` between them, each placeholder as
//! often as wanted and in any order.

use vstd::prelude::*;

use crate::buildre::{apply_fields, listed};
use crate::laws::lemma_scan_without_occurrence;
use crate::records::{filled_template, object_part};
use crate::text::{contains, exhausted, join_pieces, occurs_at, one_less, replace_first, replace_scan};

verus! {

proof fn lemma_replace_scan_shift(
    p: Seq<char>,
    b: Seq<char>,
    t: Seq<char>,
    r: Seq<char>,
    st: int,
    i: int,
    limit: Option<nat>,
)
    requires
        t.len() > 0,
        0 <= st <= i <= b.len(),
    ensures
        replace_scan(p + b, t, r, p.len() + st, p.len() + i, limit) == replace_scan(
            b,
            t,
            r,
            st,
            i,
            limit,
        ),
    decreases b.len() - i,
{
    let s = p + b;
    let k = p.len() as int;
    if i + t.len() > b.len() || exhausted(limit) {
        assert(s.subrange(k + st, s.len() as int) =~= b.subrange(st, b.len() as int));
    } else {
        assert(s.subrange(k + i, k + i + t.len()) =~= b.subrange(i, i + t.len()));
        if occurs_at(b, t, i) {
            assert(s.subrange(k + st, k + i) =~= b.subrange(st, i));
            lemma_replace_scan_shift(p, b, t, r, i + t.len(), i + t.len(), one_less(limit));
        } else {
            lemma_replace_scan_shift(p, b, t, r, st, i + 1, limit);
        }
    }
}

proof fn lemma_replace_scan_past(
    p: Seq<char>,
    b: Seq<char>,
    t: Seq<char>,
    r: Seq<char>,
    start: int,
    i: int,
    limit: Option<nat>,
)
    requires
        t.len() > 0,
        0 <= start <= p.len(),
        0 <= i <= b.len(),
    ensures
        replace_scan(p + b, t, r, start, p.len() + i, limit) == p.subrange(start, p.len() as int)
            + replace_scan(b, t, r, 0, i, limit),
    decreases b.len() - i,
{
    let s = p + b;
    let k = p.len() as int;
    if i + t.len() > b.len() || exhausted(limit) {
        assert(s.subrange(start, s.len() as int) =~= p.subrange(start, k) + b.subrange(
            0,
            b.len() as int,
        ));
    } else {
        assert(s.subrange(k + i, k + i + t.len()) =~= b.subrange(i, i + t.len()));
        if occurs_at(b, t, i) {
            assert(s.subrange(start, k + i) =~= p.subrange(start, k) + b.subrange(0, i));
            lemma_replace_scan_shift(p, b, t, r, i + t.len(), i + t.len(), one_less(limit));
            assert(p.subrange(start, k) + b.subrange(0, i) + r + replace_scan(
                b,
                t,
                r,
                i + t.len(),
                i + t.len(),
                one_less(limit),
            ) =~= p.subrange(start, k) + (b.subrange(0, i) + r + replace_scan(
                b,
                t,
                r,
                i + t.len(),
                i + t.len(),
                one_less(limit),
            )));
        } else {
            lemma_replace_scan_past(p, b, t, r, start, i + 1, limit);
        }
    }
}

proof fn lemma_replace_scan_skip(
    s: Seq<char>,
    t: Seq<char>,
    r: Seq<char>,
    start: int,
    i: int,
    j: int,
    limit: Option<nat>,
)
    requires
        t.len() > 0,
        0 <= start <= i <= j <= s.len(),
        forall|k: int| i <= k < j ==> !occurs_at(s, t, k),
    ensures
        replace_scan(s, t, r, start, i, limit) == replace_scan(s, t, r, start, j, limit),
    decreases j - i,
{
    if i < j && !exhausted(limit) && i + t.len() <= s.len() {
        assert(!occurs_at(s, t, i));
        lemma_replace_scan_skip(s, t, r, start, i + 1, j, limit);
    }
}

pub open spec fn percent_free(w: Seq<char>) -> bool {
    forall|k: int| 0 <= k < w.len() ==> w[k] != '%'
}

pub open spec fn is_placeholder(t: Seq<char>) -> bool {
    &&& t.len() >= 2
    &&& t[0] == '%'
    &&& t[t.len() - 1] == '%'
    &&& forall|k: int| 0 < k < t.len() - 1 ==> t[k] != '%'
}

pub open spec fn count_tag(tags: Seq<Seq<char>>, p: Seq<char>) -> nat
    decreases tags.len(),
{
    if tags.len() == 0 {
        0
    } else {
        (if tags[0] == p {
            1nat
        } else {
            0nat
        }) + count_tag(tags.drop_first(), p)
    }
}

proof fn lemma_percent_free_no_occurrence(w: Seq<char>, p: Seq<char>)
    requires
        percent_free(w),
        is_placeholder(p),
    ensures
        !contains(w, p),
{
    assert forall|q: int| !occurs_at(w, p, q) by {
        if occurs_at(w, p, q) {
            assert(w.subrange(q, q + p.len())[0] == p[0]);
        }
    }
}

pub open spec fn with_commas(xs: Seq<Seq<char>>) -> Seq<char>
    decreases xs.len(),
{
    if xs.len() == 0 {
        Seq::empty()
    } else {
        with_commas(xs.drop_last()) + xs.last() + ", "@
    }
}

proof fn lemma_pf_concat(x: Seq<char>, y: Seq<char>)
    requires
        percent_free(x),
        percent_free(y),
    ensures
        percent_free(x + y),
{
    assert forall|k: int| 0 <= k < (x + y).len() implies (x + y)[k] != '%' by {
        if k >= x.len() {
            assert((x + y)[k] == y[k - x.len()]);
        }
    }
}

proof fn lemma_with_commas_free(xs: Seq<Seq<char>>)
    requires
        forall|k: int| 0 <= k < xs.len() ==> percent_free(#[trigger] xs[k]),
    ensures
        percent_free(with_commas(xs)),
    decreases xs.len(),
{
    reveal_strlit(", ");
    if xs.len() > 0 {
        let init = xs.drop_last();
        assert forall|k: int| 0 <= k < init.len() implies percent_free(#[trigger] init[k]) by {
            assert(init[k] == xs[k]);
        }
        lemma_with_commas_free(init);
        assert(percent_free(xs[xs.len() - 1]));
        lemma_pf_concat(with_commas(init), xs.last());
        lemma_pf_concat(with_commas(init) + xs.last(), ", "@);
    }
}

proof fn lemma_with_commas_push(xs: Seq<Seq<char>>, i: int)
    requires
        0 <= i < xs.len(),
    ensures
        with_commas(xs.take(i + 1)) == with_commas(xs.take(i)) + xs[i] + ", "@,
{
    assert(xs.take(i + 1).drop_last() =~= xs.take(i));
}

proof fn lemma_join_with_commas(xs: Seq<Seq<char>>)
    requires
        xs.len() > 0,
    ensures
        join_pieces(xs, ", "@) == with_commas(xs.take(xs.len() - 1)) + xs[xs.len() - 1],
    decreases xs.len(),
{
    let n = xs.len() as int;
    if n == 1 {
        assert(xs.take(0) =~= Seq::<Seq<char>>::empty());
        assert(Seq::<char>::empty() + xs[0] =~= xs[0]);
    } else {
        let init = xs.drop_last();
        assert(xs =~= init.push(xs[n - 1]));
        crate::functions::lemma_join_push(init, xs[n - 1], ", "@);
        lemma_join_with_commas(init);
        assert(init.take(n - 2) =~= xs.take(n - 2));
        assert(init[n - 2] == xs[n - 2]);
        lemma_with_commas_push(xs, n - 2);
        assert(xs.take(n - 1) =~= xs.take(n - 2 + 1));
    }
}

proof fn lemma_placeholders()
    ensures
        is_placeholder("%COLS%"@),
        is_placeholder("%COL_PLACEMENTS%"@),
        is_placeholder("%OBJ_COLS%"@),
        "%COLS%"@ != "%COL_PLACEMENTS%"@,
        "%COLS%"@ != "%OBJ_COLS%"@,
        "%COL_PLACEMENTS%"@ != "%OBJ_COLS%"@,
        ", %COLS%"@ == ", "@ + "%COLS%"@,
        ", %COL_PLACEMENTS%"@ == ", "@ + "%COL_PLACEMENTS%"@,
        ", %OBJ_COLS%"@ == ", "@ + "%OBJ_COLS%"@,
        percent_free(", "@),
        percent_free("{}"@),
{
    reveal_strlit("%COLS%");
    reveal_strlit("%COL_PLACEMENTS%");
    reveal_strlit("%OBJ_COLS%");
    reveal_strlit(", %COLS%");
    reveal_strlit(", %COL_PLACEMENTS%");
    reveal_strlit(", %OBJ_COLS%");
    reveal_strlit(", ");
    reveal_strlit("{}");
    assert(", %COLS%"@ =~= ", "@ + "%COLS%"@);
    assert(", %COL_PLACEMENTS%"@ =~= ", "@ + "%COL_PLACEMENTS%"@);
    assert(", %OBJ_COLS%"@ =~= ", "@ + "%OBJ_COLS%"@);
}

proof fn lemma_object_part_free(c: Seq<char>, t: Seq<char>)
    requires
        percent_free(c),
    ensures
        percent_free(object_part(c, t, true)),
        object_part(c, t, false) == object_part(c, t, true) + ", %OBJ_COLS%"@,
{
    reveal_strlit("deserialize_option(");
    reveal_strlit("deserialize_(&");
    reveal_strlit("\nformat!(\"{:?}\",");
    reveal_strlit("unwrap_hashmap_into_string(&");
    reveal_strlit("obj.");
    reveal_strlit(".as_ref()");
    reveal_strlit(").replacen(r\"[\", \"{\", 3000)");
    reveal_strlit(".replacen(r\"]\", \"}\", 3000)");
    reveal_strlit(")");
    let e = Seq::<char>::empty();
    assert(percent_free(e));
    let p1 = "deserialize_option("@;
    let p2 = "deserialize_(&"@;
    let p3 = "\nformat!(\"{:?}\","@;
    let p4 = "unwrap_hashmap_into_string(&"@;
    let p5 = "obj."@;
    let p6 = ".as_ref()"@;
    let p7 = ").replacen(r\"[\", \"{\", 3000)"@;
    let p8 = ".replacen(r\"]\", \"}\", 3000)"@;
    let p9 = ")"@;
    assert(percent_free(p1));
    assert(percent_free(p2));
    assert(percent_free(p3));
    assert(percent_free(p4));
    assert(percent_free(p5));
    assert(percent_free(p6));
    assert(percent_free(p7));
    assert(percent_free(p8));
    assert(percent_free(p9));
    lemma_pf_concat(p7, p8);
    let optional = contains(t, "Option"@);
    let array = contains(t, "Vec"@);
    let map = contains(t, "HashMap"@);
    let q1 = if optional {
        p1
    } else {
        p2
    };
    let q2 = if array {
        p3
    } else if map {
        p4
    } else {
        e
    };
    let q3 = if optional {
        p6
    } else {
        e
    };
    let q4 = if array {
        p7 + p8
    } else if map {
        p9
    } else {
        e
    };
    lemma_pf_concat(q1, q2);
    lemma_pf_concat(q1 + q2, p5);
    lemma_pf_concat(q1 + q2 + p5, c);
    lemma_pf_concat(q1 + q2 + p5 + c, q3);
    lemma_pf_concat(q1 + q2 + p5 + c + q3, q4);
    lemma_pf_concat(q1 + q2 + p5 + c + q3 + q4, p9);
    assert(object_part(c, t, true) =~= q1 + q2 + p5 + c + q3 + q4 + p9);
    assert(object_part(c, t, false) =~= q1 + q2 + p5 + c + q3 + q4 + p9 + ", %OBJ_COLS%"@);
}


/// The placeholder with number `j`: 0 is `%COLS%`, 1 `%COL_PLACEMENTS%`, 2
/// `%OBJ_COLS%`.
pub open spec fn placeholder(j: int) -> Seq<char> {
    if j == 0 {
        "%COLS%"@
    } else if j == 1 {
        "%COL_PLACEMENTS%"@
    } else {
        "%OBJ_COLS%"@
    }
}

/// The number of a placeholder; 3 for any other text.
pub open spec fn placeholder_number(t: Seq<char>) -> int {
    if t == placeholder(0) {
        0
    } else if t == placeholder(1) {
        1
    } else if t == placeholder(2) {
        2
    } else {
        3
    }
}

/// The segments `ws` with, between them, the texts `rs` put for the
/// placeholders `tags`: `ws[0] rs[tags[0]] ws[1] ... ws[n]`.
pub open spec fn substituted(ws: Seq<Seq<char>>, tags: Seq<Seq<char>>, rs: Seq<Seq<char>>) -> Seq<char>
    decreases tags.len(),
{
    if tags.len() == 0 || ws.len() == 0 {
        if ws.len() > 0 {
            ws[0]
        } else {
            Seq::empty()
        }
    } else {
        ws[0] + rs[placeholder_number(tags[0])] + substituted(ws.drop_first(), tags.drop_first(), rs)
    }
}

/// A character that can occur in a placeholder: an upper-case ASCII letter,
/// `_` or `%`.
pub open spec fn is_marker_char(ch: char) -> bool {
    ('A' <= ch && ch <= 'Z') || ch == '_' || ch == '%'
}

/// The text holds a character that no placeholder holds.
pub open spec fn has_plain_char(w: Seq<char>) -> bool {
    exists|k: int| 0 <= k < w.len() && !is_marker_char(#[trigger] w[k])
}

/// `%`-free segments with placeholders between them, where each segment
/// between two placeholders holds a character that no placeholder holds.
pub open spec fn fill_template_shape(ws: Seq<Seq<char>>, tags: Seq<Seq<char>>) -> bool {
    &&& ws.len() == tags.len() + 1
    &&& forall|k: int| 0 <= k < ws.len() ==> percent_free(#[trigger] ws[k])
    &&& forall|k: int| 1 <= k < tags.len() ==> has_plain_char(#[trigger] ws[k])
    &&& forall|k: int| 0 <= k < tags.len() ==> 0 <= #[trigger] placeholder_number(tags[k]) < 3
}

/// For each placeholder, its text so far, followed by the placeholder
/// itself when it is still to be filled.
pub open spec fn shaped(ps: Seq<Seq<char>>, bs: Seq<bool>) -> Seq<Seq<char>> {
    Seq::new(
        3,
        |k: int|
            if bs[k] {
                ps[k] + placeholder(k)
            } else {
                ps[k]
            },
    )
}

proof fn lemma_placeholder_chars(j: int)
    requires
        0 <= j < 3,
    ensures
        is_placeholder(placeholder(j)),
        placeholder(j).len() > 0,
        forall|i: int|
            0 < i < placeholder(j).len() - 1 ==> is_marker_char(#[trigger] placeholder(j)[i])
                && placeholder(j)[i] != '%',
        forall|k: int| 0 <= k < 3 && k != j ==> placeholder(k) != placeholder(j),
        placeholder_number(placeholder(j)) == j,
{
    lemma_placeholders();
    reveal_strlit("%COLS%");
    reveal_strlit("%COL_PLACEMENTS%");
    reveal_strlit("%OBJ_COLS%");
}

proof fn lemma_shape_rest(ws: Seq<Seq<char>>, tags: Seq<Seq<char>>)
    requires
        fill_template_shape(ws, tags),
        tags.len() > 0,
    ensures
        fill_template_shape(ws.drop_first(), tags.drop_first()),
{
    let ws2 = ws.drop_first();
    let tg2 = tags.drop_first();
    assert forall|k: int| 0 <= k < ws2.len() implies percent_free(#[trigger] ws2[k]) by {
        assert(ws2[k] == ws[k + 1]);
    }
    assert forall|k: int| 1 <= k < tg2.len() implies has_plain_char(#[trigger] ws2[k]) by {
        assert(ws2[k] == ws[k + 1]);
    }
    assert forall|k: int| 0 <= k < tg2.len() implies 0 <= #[trigger] placeholder_number(tg2[k]) < 3 by {
        assert(tg2[k] == tags[k + 1]);
    }
}

proof fn lemma_unused_text_untouched(ws: Seq<Seq<char>>, tags: Seq<Seq<char>>, rs: Seq<Seq<char>>, j: int, y: Seq<char>)
    requires
        0 <= j < 3,
        rs.len() == 3,
        count_tag(tags, placeholder(j)) == 0,
        forall|k: int| 0 <= k < tags.len() ==> 0 <= #[trigger] placeholder_number(tags[k]) < 3,
    ensures
        substituted(ws, tags, rs) == substituted(ws, tags, rs.update(j, y)),
    decreases tags.len(),
{
    if tags.len() > 0 && ws.len() > 0 {
        let tg2 = tags.drop_first();
        assert forall|k: int| 0 <= k < tg2.len() implies 0 <= #[trigger] placeholder_number(tg2[k]) < 3 by {
            assert(tg2[k] == tags[k + 1]);
        }
        lemma_placeholder_chars(j);
        assert(placeholder_number(tags[0]) != j);
        lemma_unused_text_untouched(ws.drop_first(), tg2, rs, j, y);
    }
}

proof fn lemma_no_occurrence_at_close(s: Seq<char>, c: int, t: Seq<char>, j: int, q: int, ends: bool)
    requires
        0 <= j < 3,
        t == placeholder(j),
        0 <= c < s.len(),
        ends ==> forall|x: int| c < x < s.len() ==> s[x] != '%',
        !ends ==> c < q < s.len() && !is_marker_char(s[q]) && forall|x: int| c < x < q ==> s[x]
            != '%',
    ensures
        !occurs_at(s, t, c),
{
    lemma_placeholder_chars(j);
    let m = t.len() as int;
    if occurs_at(s, t, c) {
        let occ = s.subrange(c, c + m);
        assert(occ == t);
        assert(occ[m - 1] == s[c + m - 1]);
        if !ends {
            if q < c + m - 1 {
                assert(occ[q - c] == s[q]);
                assert(is_marker_char(t[q - c]));
            }
        }
    }
}

proof fn lemma_replace_substituted(
    ws: Seq<Seq<char>>,
    tags: Seq<Seq<char>>,
    ps: Seq<Seq<char>>,
    bs: Seq<bool>,
    j: int,
    x: Seq<char>,
    limit: Option<nat>,
)
    requires
        fill_template_shape(ws, tags),
        ps.len() == 3,
        bs.len() == 3,
        forall|k: int| 0 <= k < 3 ==> percent_free(#[trigger] ps[k]),
        0 <= j < 3,
        bs[j],
        limit matches Some(l) ==> count_tag(tags, placeholder(j)) <= l,
    ensures
        replace_scan(substituted(ws, tags, shaped(ps, bs)), placeholder(j), x, 0, 0, limit)
            == substituted(ws, tags, shaped(ps, bs).update(j, ps[j] + x)),
    decreases tags.len(),
{
    let rs = shaped(ps, bs);
    let rs2 = rs.update(j, ps[j] + x);
    let p = placeholder(j);
    lemma_placeholder_chars(j);
    let m = p.len() as int;
    let big = substituted(ws, tags, rs);
    let w0 = ws[0];
    assert(percent_free(ws[0]));
    if tags.len() == 0 {
        lemma_percent_free_no_occurrence(w0, p);
        lemma_scan_without_occurrence(w0, p, x, 0, 0, limit);
        assert(w0.subrange(0, w0.len() as int) =~= w0);
    } else if exhausted(limit) {
        lemma_unused_text_untouched(ws, tags, rs, j, ps[j] + x);
        assert(big.subrange(0, big.len() as int) =~= big);
    } else {
        let t0 = tags[0];
        let k0 = placeholder_number(t0);
        assert(0 <= placeholder_number(tags[0]) < 3);
        lemma_placeholder_chars(k0);
        assert(t0 == placeholder(k0));
        let ws2 = ws.drop_first();
        let tg2 = tags.drop_first();
        lemma_shape_rest(ws, tags);
        let rest = substituted(ws2, tg2, rs);
        let pre = w0 + ps[k0];
        assert(percent_free(ps[k0]));
        lemma_pf_concat(w0, ps[k0]);
        let n0 = pre.len() as int;
        if bs[k0] {
            assert(big == pre + t0 + rest);
        } else {
            assert(big == pre + rest);
        }
        assert forall|k: int| 0 <= k < n0 implies !occurs_at(big, p, k) by {
            if occurs_at(big, p, k) {
                assert(big.subrange(k, k + m)[0] == p[0]);
                assert(big[k] == pre[k]);
            }
        }
        if !bs[k0] {
            assert(k0 != j);
            lemma_replace_scan_skip(big, p, x, 0, 0, n0, limit);
            lemma_replace_scan_past(pre, rest, p, x, 0, 0, limit);
            assert(pre.subrange(0, n0) =~= pre);
            lemma_replace_substituted(ws2, tg2, ps, bs, j, x, limit);
            assert(rs2[k0] == rs[k0]);
        } else if k0 == j {
            lemma_replace_scan_skip(big, p, x, 0, 0, n0, limit);
            assert(big.subrange(n0, n0 + m) =~= t0);
            assert(big.subrange(0, n0) =~= pre);
            lemma_replace_scan_shift(pre + t0, rest, p, x, 0, 0, one_less(limit));
            lemma_replace_substituted(ws2, tg2, ps, bs, j, x, one_less(limit));
            assert(w0 + (ps[j] + x) =~= pre + x);
        } else {
            let tl = t0.len() as int;
            let c = n0 + tl - 1;
            assert forall|k: int| n0 <= k < n0 + tl implies !occurs_at(big, p, k) by {
                if occurs_at(big, p, k) {
                    let occ = big.subrange(k, k + m);
                    assert(occ == p);
                    if k == n0 {
                        if m <= tl {
                            assert(occ[m - 1] == t0[m - 1]);
                            assert(occ =~= t0.subrange(0, m));
                            if m == tl {
                                assert(t0.subrange(0, m) =~= t0);
                            }
                        } else {
                            assert(occ[tl - 1] == t0[tl - 1]);
                        }
                    } else if k < c {
                        assert(occ[0] == big[k]);
                        assert(big[k] == t0[k - n0]);
                    } else {
                        let w1 = ws2[0];
                        assert(percent_free(ws2[0]));
                        if tg2.len() == 0 {
                            assert(rest == w1);
                            assert forall|y: int| c < y < big.len() implies big[y] != '%' by {
                                assert(big[y] == w1[y - c - 1]);
                            }
                            lemma_no_occurrence_at_close(big, c, p, j, 0, true);
                        } else {
                            assert(has_plain_char(ws[1]));
                            assert(ws[1] == w1);
                            let q0 = choose|q: int| 0 <= q < w1.len() && !is_marker_char(#[trigger] w1[q]);
                            let r1 = rs[placeholder_number(tg2[0])];
                            assert(rest == w1 + r1 + substituted(ws2.drop_first(), tg2.drop_first(), rs));
                            assert(big[c + 1 + q0] == w1[q0]);
                            assert forall|y: int| c < y < c + 1 + q0 implies big[y] != '%' by {
                                assert(big[y] == w1[y - c - 1]);
                            }
                            lemma_no_occurrence_at_close(big, c, p, j, c + 1 + q0, false);
                        }
                    }
                }
            }
            lemma_replace_scan_skip(big, p, x, 0, 0, n0 + tl, limit);
            lemma_replace_scan_past(pre + t0, rest, p, x, 0, 0, limit);
            assert((pre + t0).subrange(0, n0 + tl) =~= pre + t0);
            lemma_replace_substituted(ws2, tg2, ps, bs, j, x, limit);
            assert(rs2[k0] == rs[k0]);
        }
    }
}

/// The text put for each placeholder once the fields `names[0..i]` are
/// filled in: the parts so far, each followed by a comma and a space, then
/// the placeholder itself.
pub open spec fn stage_texts(names: Seq<Seq<char>>, types: Seq<Seq<char>>, i: int) -> Seq<Seq<char>> {
    let n = names.len() as int;
    let holes = Seq::new(n as nat, |k: int| "{}"@);
    let objs = Seq::new(n as nat, |k: int| object_part(names[k], types[k], true));
    seq![
        with_commas(names.take(i)) + placeholder(0),
        with_commas(holes.take(i)) + placeholder(1),
        with_commas(objs.take(i)) + placeholder(2),
    ]
}

/// The text each placeholder ends with once every field is filled in: the
/// field names, one `{}` per field, and the expressions that read the fields,
/// each joined by `, `.
pub open spec fn filled_texts(names: Seq<Seq<char>>, types: Seq<Seq<char>>) -> Seq<Seq<char>> {
    let n = names.len() as int;
    seq![
        join_pieces(names, ", "@),
        join_pieces(Seq::new(n as nat, |k: int| "{}"@), ", "@),
        join_pieces(Seq::new(n as nat, |k: int| object_part(names[k], types[k], true)), ", "@),
    ]
}

proof fn lemma_stage_parts_free(names: Seq<Seq<char>>, types: Seq<Seq<char>>, i: int)
    requires
        names.len() == types.len(),
        0 <= i <= names.len(),
        forall|k: int| 0 <= k < names.len() ==> percent_free(#[trigger] names[k]),
    ensures
        ({
            let n = names.len() as int;
            let holes = Seq::new(n as nat, |k: int| "{}"@);
            let objs = Seq::new(n as nat, |k: int| object_part(names[k], types[k], true));
            &&& percent_free(with_commas(names.take(i)))
            &&& percent_free(with_commas(holes.take(i)))
            &&& percent_free(with_commas(objs.take(i)))
        }),
{
    lemma_placeholders();
    let n = names.len() as int;
    let holes = Seq::new(n as nat, |k: int| "{}"@);
    let objs = Seq::new(n as nat, |k: int| object_part(names[k], types[k], true));
    let nt = names.take(i);
    let ht = holes.take(i);
    let ot = objs.take(i);
    assert forall|k: int| 0 <= k < nt.len() implies percent_free(#[trigger] nt[k]) by {
        assert(nt[k] == names[k]);
    }
    assert forall|k: int| 0 <= k < ht.len() implies percent_free(#[trigger] ht[k]) by {
        assert(ht[k] == holes[k]);
    }
    assert forall|k: int| 0 <= k < ot.len() implies percent_free(#[trigger] ot[k]) by {
        assert(ot[k] == objs[k]);
        assert(percent_free(names[k]));
        lemma_object_part_free(names[k], types[k]);
    }
    lemma_with_commas_free(nt);
    lemma_with_commas_free(ht);
    lemma_with_commas_free(ot);
}

proof fn lemma_replace_first_is_scan(s: Seq<char>, j: int, x: Seq<char>)
    requires
        0 <= j < 3,
    ensures
        replace_first(s, placeholder(j), x, 1000) == replace_scan(s, placeholder(j), x, 0, 0, Some(1000nat)),
{
    lemma_placeholder_chars(j);
}

#[verifier::rlimit(80)]
proof fn lemma_fill_middle(
    names: Seq<Seq<char>>,
    types: Seq<Seq<char>>,
    ws: Seq<Seq<char>>,
    tags: Seq<Seq<char>>,
    i: int,
)
    requires
        names.len() == types.len(),
        0 <= i,
        i + 1 < names.len(),
        forall|k: int| 0 <= k < names.len() ==> percent_free(#[trigger] names[k]),
        fill_template_shape(ws, tags),
        forall|j: int| 0 <= j < 3 ==> count_tag(tags, #[trigger] placeholder(j)) <= 1000,
    ensures
        filled_template(names[i], types[i], substituted(ws, tags, stage_texts(names, types, i)), true, false)
            == substituted(ws, tags, stage_texts(names, types, i + 1)),
{
    lemma_placeholders();
    let n = names.len() as int;
    let holes = Seq::new(n as nat, |k: int| "{}"@);
    let objs = Seq::new(n as nat, |k: int| object_part(names[k], types[k], true));
    let wn = with_commas(names.take(i));
    let wh = with_commas(holes.take(i));
    let wo = with_commas(objs.take(i));
    lemma_stage_parts_free(names, types, i);
    let col = names[i];
    assert(percent_free(names[i]));
    lemma_object_part_free(col, types[i]);
    let obj = object_part(col, types[i], true);
    assert(objs[i] == obj);
    assert(holes[i] == "{}"@);
    let bs = seq![true, true, true];
    let ps0 = seq![wn, wh, wo];
    assert(shaped(ps0, bs) =~= stage_texts(names, types, i));
    let s0 = substituted(ws, tags, shaped(ps0, bs));
    lemma_pf_concat(wn, col);
    lemma_pf_concat(wn + col, ", "@);
    lemma_pf_concat(wh, "{}"@);
    lemma_pf_concat(wh + "{}"@, ", "@);
    lemma_pf_concat(wo, obj);
    lemma_pf_concat(wo + obj, ", "@);
    let x0 = col + ", %COLS%"@;
    lemma_replace_first_is_scan(s0, 0, x0);
    assert(count_tag(tags, placeholder(0)) <= 1000);
    lemma_replace_substituted(ws, tags, ps0, bs, 0, x0, Some(1000));
    let ps1 = seq![wn + col + ", "@, wh, wo];
    assert(ps0[0] + x0 =~= ps1[0] + placeholder(0));
    assert(shaped(ps0, bs).update(0, ps0[0] + x0) =~= shaped(ps1, bs));
    let s1 = substituted(ws, tags, shaped(ps1, bs));
    let x1 = "{}"@ + ", %COL_PLACEMENTS%"@;
    lemma_replace_first_is_scan(s1, 1, x1);
    assert(count_tag(tags, placeholder(1)) <= 1000);
    lemma_replace_substituted(ws, tags, ps1, bs, 1, x1, Some(1000));
    let ps2 = seq![wn + col + ", "@, wh + "{}"@ + ", "@, wo];
    assert(ps1[1] + x1 =~= ps2[1] + placeholder(1));
    assert(shaped(ps1, bs).update(1, ps1[1] + x1) =~= shaped(ps2, bs));
    let s2 = substituted(ws, tags, shaped(ps2, bs));
    let x2 = object_part(col, types[i], false);
    lemma_replace_first_is_scan(s2, 2, x2);
    assert(count_tag(tags, placeholder(2)) <= 1000);
    lemma_replace_substituted(ws, tags, ps2, bs, 2, x2, Some(1000));
    let ps3 = seq![wn + col + ", "@, wh + "{}"@ + ", "@, wo + obj + ", "@];
    assert(ps2[2] + x2 =~= ps3[2] + placeholder(2));
    assert(shaped(ps2, bs).update(2, ps2[2] + x2) =~= shaped(ps3, bs));
    lemma_with_commas_push(names, i);
    lemma_with_commas_push(holes, i);
    lemma_with_commas_push(objs, i);
    assert(shaped(ps3, bs) =~= stage_texts(names, types, i + 1));
}

#[verifier::rlimit(40)]
proof fn lemma_fill_last(
    names: Seq<Seq<char>>,
    types: Seq<Seq<char>>,
    ws: Seq<Seq<char>>,
    tags: Seq<Seq<char>>,
)
    requires
        names.len() == types.len(),
        names.len() > 0,
        forall|k: int| 0 <= k < names.len() ==> percent_free(#[trigger] names[k]),
        fill_template_shape(ws, tags),
        forall|j: int| 0 <= j < 3 ==> count_tag(tags, #[trigger] placeholder(j)) <= 1000,
    ensures
        filled_template(
            names[names.len() - 1],
            types[names.len() - 1],
            substituted(ws, tags, stage_texts(names, types, names.len() - 1)),
            true,
            true,
        ) == substituted(ws, tags, filled_texts(names, types)),
{
    lemma_placeholders();
    let n = names.len() as int;
    let i = n - 1;
    let holes = Seq::new(n as nat, |k: int| "{}"@);
    let objs = Seq::new(n as nat, |k: int| object_part(names[k], types[k], true));
    let wn = with_commas(names.take(i));
    let wh = with_commas(holes.take(i));
    let wo = with_commas(objs.take(i));
    lemma_stage_parts_free(names, types, i);
    let col = names[i];
    assert(percent_free(names[i]));
    lemma_object_part_free(col, types[i]);
    let obj = object_part(col, types[i], true);
    assert(objs[i] == obj);
    assert(holes[i] == "{}"@);
    let ps0 = seq![wn, wh, wo];
    let bs0 = seq![true, true, true];
    assert(shaped(ps0, bs0) =~= stage_texts(names, types, i));
    let s0 = substituted(ws, tags, shaped(ps0, bs0));
    lemma_pf_concat(wn, col);
    lemma_pf_concat(wh, "{}"@);
    lemma_pf_concat(wo, obj);
    lemma_replace_first_is_scan(s0, 0, col);
    assert(count_tag(tags, placeholder(0)) <= 1000);
    lemma_replace_substituted(ws, tags, ps0, bs0, 0, col, Some(1000));
    let ps1 = seq![wn + col, wh, wo];
    let bs1 = seq![false, true, true];
    assert(shaped(ps0, bs0).update(0, ps0[0] + col) =~= shaped(ps1, bs1));
    let s1 = substituted(ws, tags, shaped(ps1, bs1));
    lemma_replace_first_is_scan(s1, 1, "{}"@);
    assert(count_tag(tags, placeholder(1)) <= 1000);
    lemma_replace_substituted(ws, tags, ps1, bs1, 1, "{}"@, Some(1000));
    let ps2 = seq![wn + col, wh + "{}"@, wo];
    let bs2 = seq![false, false, true];
    assert(shaped(ps1, bs1).update(1, ps1[1] + "{}"@) =~= shaped(ps2, bs2));
    let s2 = substituted(ws, tags, shaped(ps2, bs2));
    lemma_replace_first_is_scan(s2, 2, obj);
    assert(count_tag(tags, placeholder(2)) <= 1000);
    lemma_replace_substituted(ws, tags, ps2, bs2, 2, obj, Some(1000));
    lemma_join_with_commas(names);
    lemma_join_with_commas(holes);
    lemma_join_with_commas(objs);
    assert(shaped(ps2, bs2).update(2, ps2[2] + obj) =~= filled_texts(names, types));
}

proof fn lemma_fill_from(
    names: Seq<Seq<char>>,
    types: Seq<Seq<char>>,
    ws: Seq<Seq<char>>,
    tags: Seq<Seq<char>>,
    i: int,
)
    requires
        names.len() == types.len(),
        0 <= i < names.len(),
        forall|k: int| 0 <= k < names.len() ==> percent_free(#[trigger] names[k]),
        fill_template_shape(ws, tags),
        forall|j: int| 0 <= j < 3 ==> count_tag(tags, #[trigger] placeholder(j)) <= 1000,
    ensures
        apply_fields(
            names,
            types,
            substituted(ws, tags, stage_texts(names, types, i)),
            Seq::empty(),
            true,
            i as nat,
        ) == substituted(ws, tags, filled_texts(names, types)),
    decreases names.len() - i,
{
    reveal_with_fuel(apply_fields, 2);
    assert(!listed(Seq::<usize>::empty(), i));
    if i + 1 < names.len() {
        lemma_fill_middle(names, types, ws, tags, i);
        lemma_fill_from(names, types, ws, tags, i + 1);
    } else {
        lemma_fill_last(names, types, ws, tags);
    }
}

/// Filling the fields of a struct into a template one after the other, as
/// successive calls of `modify_template_based_on_row` do in struct mode (the
/// last call told it is the last row), puts in place of every `%COLS%` the
/// field names joined by `, `, of every `%COL_PLACEMENTS%` one `{}` per field
/// joined by `, `, and of every `%OBJ_COLS%` the expressions that read the
/// fields joined by `, `. The template is `%`-free text with placeholders
/// between, each placeholder at most a thousand times and in any order, and
/// the text between two placeholders holds a character that no placeholder
/// holds; the field names hold no `%`.
pub proof fn lemma_fields_fill_placeholders(
    names: Seq<Seq<char>>,
    types: Seq<Seq<char>>,
    ws: Seq<Seq<char>>,
    tags: Seq<Seq<char>>,
)
    requires
        names.len() == types.len(),
        names.len() > 0,
        forall|k: int| 0 <= k < names.len() ==> percent_free(#[trigger] names[k]),
        fill_template_shape(ws, tags),
        forall|j: int| 0 <= j < 3 ==> count_tag(tags, #[trigger] placeholder(j)) <= 1000,
    ensures
        apply_fields(
            names,
            types,
            substituted(ws, tags, seq![placeholder(0), placeholder(1), placeholder(2)]),
            Seq::empty(),
            true,
            0,
        ) == substituted(ws, tags, filled_texts(names, types)),
{
    let n = names.len() as int;
    let holes = Seq::new(n as nat, |k: int| "{}"@);
    let objs = Seq::new(n as nat, |k: int| object_part(names[k], types[k], true));
    assert(names.take(0) =~= Seq::<Seq<char>>::empty());
    assert(holes.take(0) =~= Seq::<Seq<char>>::empty());
    assert(objs.take(0) =~= Seq::<Seq<char>>::empty());
    assert(Seq::<char>::empty() + placeholder(0) =~= placeholder(0));
    assert(Seq::<char>::empty() + placeholder(1) =~= placeholder(1));
    assert(Seq::<char>::empty() + placeholder(2) =~= placeholder(2));
    assert(stage_texts(names, types, 0) =~= seq![placeholder(0), placeholder(1), placeholder(2)]);
    lemma_fill_from(names, types, ws, tags, 0);
}

proof fn lemma_replace_in_lone_obj_cols(j: int, x: Seq<char>)
    requires
        0 <= j < 3,
    ensures
        replace_first("%OBJ_COLS%"@, placeholder(j), x, 1000) == if j == 2 {
            x
        } else {
            "%OBJ_COLS%"@
        },
{
    reveal_with_fuel(substituted, 2);
    reveal_with_fuel(count_tag, 2);
    lemma_placeholder_chars(j);
    lemma_placeholder_chars(2);
    lemma_placeholders();
    let e = Seq::<char>::empty();
    let ws = seq![e, e];
    let tags = seq![placeholder(2)];
    let ps = seq![e, e, e];
    let bs = seq![true, true, true];
    assert(percent_free(e));
    assert(fill_template_shape(ws, tags));
    assert(shaped(ps, bs)[2] =~= placeholder(2));
    assert(substituted(ws, tags, shaped(ps, bs)) =~= placeholder(2));
    lemma_replace_first_is_scan("%OBJ_COLS%"@, j, x);
    lemma_replace_substituted(ws, tags, ps, bs, j, x, Some(1000));
    let rs2 = shaped(ps, bs).update(j, ps[j] + x);
    if j == 2 {
        assert(rs2[2] =~= x);
        assert(substituted(ws, tags, rs2) =~= x);
    } else {
        assert(rs2[2] == shaped(ps, bs)[2]);
        assert(substituted(ws, tags, rs2) =~= placeholder(2));
    }
}

/// Filling a field into the template `%OBJ_COLS%` gives the expression that
/// reads the field, for any field name and type.
pub proof fn lemma_obj_cols_gives_field_expression(c: Seq<char>, t: Seq<char>, last: bool)
    ensures
        filled_template(c, t, "%OBJ_COLS%"@, true, last) == object_part(c, t, last),
{
    let x0 = crate::records::names_part(c, last);
    let x1 = crate::records::placements_part(last);
    lemma_replace_in_lone_obj_cols(0, x0);
    lemma_replace_in_lone_obj_cols(1, x1);
    lemma_replace_in_lone_obj_cols(2, object_part(c, t, last));
}

proof fn lemma_contains_middle(a: Seq<char>, b: Seq<char>, z: Seq<char>)
    ensures
        contains(a + b + z, b),
{
    let s = a + b + z;
    assert(s.subrange(a.len() as int, (a.len() + b.len()) as int) =~= b);
    assert(occurs_at(s, b, a.len() as int));
}

/// The expression that reads a field of a map type (a type that names
/// `HashMap` and not `Vec`) goes through `unwrap_hashmap_into_string(&`,
/// whether or not the type is also an `Option`.
pub proof fn lemma_map_field_is_unwrapped(c: Seq<char>, t: Seq<char>, last: bool)
    requires
        contains(t, "HashMap"@),
        !contains(t, "Vec"@),
    ensures
        contains(filled_template(c, t, "%OBJ_COLS%"@, true, last), "unwrap_hashmap_into_string(&"@),
{
    lemma_obj_cols_gives_field_expression(c, t, last);
    let q1 = if contains(t, "Option"@) {
        "deserialize_option("@
    } else {
        "deserialize_(&"@
    };
    let q2 = "unwrap_hashmap_into_string(&"@;
    let obj = object_part(c, t, last);
    let rest = obj.subrange((q1.len() + q2.len()) as int, obj.len() as int);
    assert(obj =~= q1 + q2 + rest);
    lemma_contains_middle(q1, q2, rest);
}

/// The expression that reads a field of a list type (a type that names
/// `Vec`) formats the list with `format!("{:?}",`.
pub proof fn lemma_list_field_is_formatted(c: Seq<char>, t: Seq<char>, last: bool)
    requires
        contains(t, "Vec"@),
    ensures
        contains(filled_template(c, t, "%OBJ_COLS%"@, true, last), "\nformat!(\"{:?}\","@),
{
    lemma_obj_cols_gives_field_expression(c, t, last);
    let q1 = if contains(t, "Option"@) {
        "deserialize_option("@
    } else {
        "deserialize_(&"@
    };
    let q2 = "\nformat!(\"{:?}\","@;
    let obj = object_part(c, t, last);
    let rest = obj.subrange((q1.len() + q2.len()) as int, obj.len() as int);
    assert(obj =~= q1 + q2 + rest);
    lemma_contains_middle(q1, q2, rest);
}

/// The expression that reads an optional field (a type that names `Option`)
/// starts with `deserialize_option(`, and any other with `deserialize_(&`.
pub proof fn lemma_field_expression_start(c: Seq<char>, t: Seq<char>, last: bool)
    ensures
        ({
            let out = filled_template(c, t, "%OBJ_COLS%"@, true, last);
            let start = if contains(t, "Option"@) {
                "deserialize_option("@
            } else {
                "deserialize_(&"@
            };
            out.len() >= start.len() && out.subrange(0, start.len() as int) == start
        }),
{
    lemma_obj_cols_gives_field_expression(c, t, last);
    let q1 = if contains(t, "Option"@) {
        "deserialize_option("@
    } else {
        "deserialize_(&"@
    };
    let obj = object_part(c, t, last);
    let rest = obj.subrange(q1.len() as int, obj.len() as int);
    assert(obj =~= q1 + rest);
    assert(obj.subrange(0, q1.len() as int) =~= q1);
}

} // verus!
