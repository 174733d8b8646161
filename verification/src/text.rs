//! Character-level text operations: substring search, splitting on a
//! delimiter, bounded and unbounded replacement, trimming, and the decimal
//! rendering and parsing of `usize` values.
//!
//! Every operation is specified over the `Seq<char>` view of its strings.
//! Splitting and replacing follow the leftmost, non-overlapping matching of a
//! string pattern; an empty pattern matches at every character boundary.

use vstd::prelude::*;
use vstd::string::StringSliceAdditionalSpecFns;
use vstd::utf8::*;

verus! {

// ---------------------------------------------------------------------
// Specifications
// ---------------------------------------------------------------------

/// `p` occurs in `s` starting at character position `i`.
pub open spec fn occurs_at(s: Seq<char>, p: Seq<char>, i: int) -> bool {
    0 <= i && i + p.len() <= s.len() && s.subrange(i, i + p.len()) == p
}

/// `p` occurs somewhere in `s`.
pub open spec fn contains(s: Seq<char>, p: Seq<char>) -> bool {
    exists|i: int| occurs_at(s, p, i)
}

/// Pieces of `s[start..]` cut at the leftmost non-overlapping occurrences of
/// the non-empty delimiter `d` found at or after position `i`.
pub open spec fn split_scan(s: Seq<char>, d: Seq<char>, start: int, i: int) -> Seq<Seq<char>>
    decreases s.len() - i,
{
    if d.len() == 0 || i < 0 || i + d.len() > s.len() {
        seq![s.subrange(start, s.len() as int)]
    } else if occurs_at(s, d, i) {
        seq![s.subrange(start, i)] + split_scan(s, d, i + d.len(), i + d.len())
    } else {
        split_scan(s, d, start, i + 1)
    }
}

/// The pieces that splitting `s` on the delimiter `d` yields. An empty
/// delimiter matches at every character boundary, so the pieces are an empty
/// string, each character on its own, and a final empty string.
pub open spec fn split_pieces(s: Seq<char>, d: Seq<char>) -> Seq<Seq<char>> {
    if d.len() == 0 {
        seq![Seq::<char>::empty()] + Seq::new(s.len(), |k: int| seq![s[k]]) + seq![
            Seq::<char>::empty(),
        ]
    } else {
        split_scan(s, d, 0, 0)
    }
}

/// The pieces joined back together with `d` between consecutive pieces.
pub open spec fn join_pieces(pieces: Seq<Seq<char>>, d: Seq<char>) -> Seq<char>
    decreases pieces.len(),
{
    if pieces.len() == 0 {
        Seq::empty()
    } else if pieces.len() == 1 {
        pieces[0]
    } else {
        pieces[0] + d + join_pieces(pieces.drop_first(), d)
    }
}

/// One fewer replacement left, where `None` means no bound.
pub open spec fn one_less(limit: Option<nat>) -> Option<nat> {
    match limit {
        Some(k) => Some((k - 1) as nat),
        None => None,
    }
}

/// The bound has been used up.
pub open spec fn exhausted(limit: Option<nat>) -> bool {
    limit == Some(0nat)
}

/// Replacement of the leftmost non-overlapping occurrences of the non-empty
/// pattern `p` (found at or after `i`) by `r` in `s[start..]`, stopping once
/// `limit` replacements are made.
pub open spec fn replace_scan(
    s: Seq<char>,
    p: Seq<char>,
    r: Seq<char>,
    start: int,
    i: int,
    limit: Option<nat>,
) -> Seq<char>
    decreases s.len() - i,
{
    if p.len() == 0 || i < 0 || i + p.len() > s.len() || exhausted(limit) {
        s.subrange(start, s.len() as int)
    } else if occurs_at(s, p, i) {
        s.subrange(start, i) + r + replace_scan(s, p, r, i + p.len(), i + p.len(), one_less(limit))
    } else {
        replace_scan(s, p, r, start, i + 1, limit)
    }
}

/// Replacement of the empty pattern: `r` is inserted at every character
/// boundary of `s`, from the left, until `limit` insertions are made.
pub open spec fn replace_empty(s: Seq<char>, r: Seq<char>, limit: Option<nat>) -> Seq<char>
    decreases s.len(),
{
    if exhausted(limit) {
        s
    } else if s.len() == 0 {
        r
    } else {
        r + seq![s[0]] + replace_empty(s.drop_first(), r, one_less(limit))
    }
}

/// `s` with the first `limit` (all, for `None`) leftmost non-overlapping
/// occurrences of `p` replaced by `r`.
pub open spec fn replace_limited(s: Seq<char>, p: Seq<char>, r: Seq<char>, limit: Option<nat>) -> Seq<
    char,
> {
    if p.len() == 0 {
        replace_empty(s, r, limit)
    } else {
        replace_scan(s, p, r, 0, 0, limit)
    }
}

/// Every occurrence of `p` in `s` replaced by `r`.
pub open spec fn replace_all(s: Seq<char>, p: Seq<char>, r: Seq<char>) -> Seq<char> {
    replace_limited(s, p, r, None)
}

/// The first `n` occurrences of `p` in `s` replaced by `r`.
pub open spec fn replace_first(s: Seq<char>, p: Seq<char>, r: Seq<char>, n: nat) -> Seq<char> {
    replace_limited(s, p, r, Some(n))
}

/// `p` occurs in `s` at `i` as a whole number label: no decimal digit
/// follows it.
pub open spec fn occurs_whole_at(s: Seq<char>, p: Seq<char>, i: int) -> bool {
    occurs_at(s, p, i) && !(i + p.len() < s.len() && is_digit(s[i + p.len()]))
}

/// Replacement of the leftmost non-overlapping whole occurrences of the
/// non-empty `p` (found at or after `i`) by `r` in `s[start..]`.
pub open spec fn replace_whole_scan(s: Seq<char>, p: Seq<char>, r: Seq<char>, start: int, i: int) -> Seq<
    char,
>
    decreases s.len() - i,
{
    if p.len() == 0 || i < 0 || i + p.len() > s.len() {
        s.subrange(start, s.len() as int)
    } else if occurs_whole_at(s, p, i) {
        s.subrange(start, i) + r + replace_whole_scan(s, p, r, i + p.len(), i + p.len())
    } else {
        replace_whole_scan(s, p, r, start, i + 1)
    }
}

/// `s` with every whole occurrence of `p` (one that no decimal digit
/// follows) replaced by `r`, leftmost first; an empty `p` replaces nothing.
pub open spec fn replace_whole(s: Seq<char>, p: Seq<char>, r: Seq<char>) -> Seq<char> {
    replace_whole_scan(s, p, r, 0, 0)
}

/// `s` without any trailing run of the character `c`.
pub open spec fn trim_end(s: Seq<char>, c: char) -> Seq<char>
    decreases s.len(),
{
    if s.len() > 0 && s.last() == c {
        trim_end(s.drop_last(), c)
    } else {
        s
    }
}

/// The ASCII character of the decimal digit `d`.
pub open spec fn digit_char(d: nat) -> char {
    ((48 + d) as u32) as char
}

/// Decimal rendering of `n`, most significant digit first, without leading
/// zeros.
pub open spec fn decimal(n: nat) -> Seq<char>
    decreases n,
{
    if n < 10 {
        seq![digit_char(n)]
    } else {
        decimal(n / 10) + seq![digit_char(n % 10)]
    }
}

/// The character is an ASCII decimal digit.
pub open spec fn is_digit(c: char) -> bool {
    '0' <= c && c <= '9'
}

/// Numeric value of a run of decimal digits.
pub open spec fn digits_value(s: Seq<char>) -> nat
    decreases s.len(),
{
    if s.len() == 0 {
        0
    } else {
        digits_value(s.drop_last()) * 10 + ((s.last() as u32) - 48) as nat
    }
}

/// The digits of an unsigned number: the text without one leading `+`.
pub open spec fn unsigned_body(s: Seq<char>) -> Seq<char> {
    if s.len() > 0 && s[0] == '+' {
        s.drop_first()
    } else {
        s
    }
}

/// What parsing `s` as a `usize` gives: an optional `+` followed by at least
/// one decimal digit and nothing else, whose value fits in a `usize`.
pub open spec fn parse_usize_spec(s: Seq<char>) -> Option<nat> {
    let body = unsigned_body(s);
    if body.len() > 0 && (forall|k: int| 0 <= k < body.len() ==> is_digit(#[trigger] body[k]))
        && digits_value(body) <= usize::MAX {
        Some(digits_value(body))
    } else {
        None
    }
}

// ---------------------------------------------------------------------
// Lemmas
// ---------------------------------------------------------------------

proof fn lemma_split_scan_step(s: Seq<char>, d: Seq<char>, start: int, i: int)
    requires
        d.len() > 0,
        0 <= start <= i,
        i + d.len() <= s.len(),
    ensures
        occurs_at(s, d, i) ==> split_scan(s, d, start, i) == seq![s.subrange(start, i)]
            + split_scan(s, d, i + d.len(), i + d.len()),
        !occurs_at(s, d, i) ==> split_scan(s, d, start, i) == split_scan(s, d, start, i + 1),
{
}

// ---------------------------------------------------------------------
// Executable operations
// ---------------------------------------------------------------------

/// The characters of `s`, in order, gathered into a vector.
pub fn chars_of(s: &str) -> (v: Vec<char>)
    ensures
        v@ == s@,
{
    broadcast use vstd::string::group_string_axioms;

    let mut v: Vec<char> = Vec::new();
    for c in it: s.chars()
        invariant
            v@ == it.seq().take(it.index() as int),
    {
        v.push(c);
    }
    v
}

/// Whether the characters `p` occur in `s` starting at position `i`.
pub fn matches_at(s: &Vec<char>, p: &Vec<char>, i: usize) -> (b: bool)
    requires
        i <= s.len(),
    ensures
        b == occurs_at(s@, p@, i as int),
{
    if p.len() > s.len() - i {
        return false;
    }
    let mut k: usize = 0;
    while k < p.len()
        invariant
            i + p.len() <= s.len(),
            0 <= k <= p.len(),
            forall|j: int| 0 <= j < k ==> s@[i + j] == p@[j],
        decreases p.len() - k,
    {
        if s[i + k] != p[k] {
            assert(s@.subrange(i as int, i + p.len())[k as int] != p@[k as int]);
            return false;
        }
        k = k + 1;
    }
    assert(s@.subrange(i as int, i + p.len()) =~= p@);
    true
}

/// Whether `p` occurs in `s`.
pub fn contains_text(s: &str, p: &str) -> (b: bool)
    ensures
        b == contains(s@, p@),
{
    let sv = chars_of(s);
    let pv = chars_of(p);
    let mut i: usize = 0;
    while i < sv.len()
        invariant
            sv@ == s@,
            pv@ == p@,
            i <= sv.len(),
            forall|j: int| 0 <= j < i ==> !occurs_at(s@, p@, j),
        decreases sv.len() - i,
    {
        if matches_at(&sv, &pv, i) {
            return true;
        }
        i = i + 1;
    }
    if matches_at(&sv, &pv, i) {
        return true;
    }
    assert forall|j: int| !occurs_at(s@, p@, j) by {
        if 0 <= j <= i {
        }
    }
    false
}

/// Whether the two strings hold the same characters.
pub fn same_text(a: &str, b: &str) -> (r: bool)
    ensures
        r == (a@ == b@),
{
    let av = chars_of(a);
    let bv = chars_of(b);
    if av.len() != bv.len() {
        return false;
    }
    let mut k: usize = 0;
    while k < av.len()
        invariant
            av@ == a@,
            bv@ == b@,
            av.len() == bv.len(),
            forall|j: int| 0 <= j < k ==> av@[j] == bv@[j],
        decreases av.len() - k,
    {
        if av[k] != bv[k] {
            return false;
        }
        k = k + 1;
    }
    assert(av@ =~= bv@);
    true
}

/// The pieces of `s` between the leftmost non-overlapping occurrences of the
/// delimiter `d`, as slices of `s`.
pub fn split_text<'a>(s: &'a str, d: &str) -> (pieces: Vec<&'a str>)
    ensures
        pieces@.len() == split_pieces(s@, d@).len(),
        forall|k: int| 0 <= k < pieces@.len() ==> #[trigger] pieces@[k]@ == split_pieces(s@, d@)[k],
{
    let sv = chars_of(s);
    let dv = chars_of(d);
    let n = sv.len();
    let m = dv.len();
    let mut pieces: Vec<&'a str> = Vec::new();
    if m == 0 {
        pieces.push(s.substring_char(0, 0));
        let mut k: usize = 0;
        while k < n
            invariant
                sv@ == s@,
                n == s@.len(),
                d@.len() == 0,
                pieces@.len() == k + 1,
                0 <= k <= n,
                forall|j: int|
                    0 <= j < pieces@.len() ==> #[trigger] pieces@[j]@ == split_pieces(s@, d@)[j],
            decreases n - k,
        {
            pieces.push(s.substring_char(k, k + 1));
            proof {
                let ghost want = split_pieces(s@, d@);
                assert(s@.subrange(k as int, k + 1) =~= seq![s@[k as int]]);
                assert(want[k + 1] == seq![s@[k as int]]);
            }
            k = k + 1;
        }
        pieces.push(s.substring_char(n, n));
        proof {
            let ghost want = split_pieces(s@, d@);
            assert(want.len() == n + 2);
            assert(s@.subrange(n as int, n as int) =~= Seq::<char>::empty());
            assert(s@.subrange(0, 0) =~= Seq::<char>::empty());
        }
        return pieces;
    }
    let mut start: usize = 0;
    let mut i: usize = 0;
    while m <= n - i
        invariant
            sv@ == s@,
            dv@ == d@,
            n == s@.len(),
            m == d@.len(),
            m > 0,
            0 <= start <= i <= n,
            forall|k: int| 0 <= k < pieces@.len() ==> #[trigger] pieces@[k]@ == split_pieces(
                s@,
                d@,
            )[k],
            split_pieces(s@, d@) == pieces@.map_values(|p: &str| p@) + split_scan(
                s@,
                d@,
                start as int,
                i as int,
            ),
        decreases n - i,
    {
        let ghost before = pieces@.map_values(|p: &str| p@);
        proof {
            lemma_split_scan_step(s@, d@, start as int, i as int);
        }
        if matches_at(&sv, &dv, i) {
            let piece = s.substring_char(start, i);
            pieces.push(piece);
            proof {
                assert(pieces@.map_values(|p: &str| p@) =~= before + seq![s@.subrange(
                    start as int,
                    i as int,
                )]);
            }
            i = i + m;
            start = i;
        } else {
            i = i + 1;
        }
    }
    let ghost before = pieces@.map_values(|p: &str| p@);
    pieces.push(s.substring_char(start, n));
    proof {
        assert(pieces@.map_values(|p: &str| p@) =~= before + seq![s@.subrange(
            start as int,
            n as int,
        )]);
        assert(split_scan(s@, d@, start as int, i as int) == seq![s@.subrange(
            start as int,
            n as int,
        )]);
        assert(pieces@.map_values(|p: &str| p@) =~= split_pieces(s@, d@));
        assert forall|k: int| 0 <= k < pieces@.len() implies #[trigger] pieces@[k]@ == split_pieces(
            s@,
            d@,
        )[k] by {
            assert(pieces@.map_values(|p: &str| p@)[k] == pieces@[k]@);
        }
    }
    pieces
}

/// The bound carried over to the specification.
pub open spec fn limit_of(limit: Option<usize>) -> Option<nat> {
    match limit {
        Some(k) => Some(k as nat),
        None => None,
    }
}

proof fn lemma_replace_scan_step(
    s: Seq<char>,
    p: Seq<char>,
    r: Seq<char>,
    start: int,
    i: int,
    limit: Option<nat>,
)
    requires
        p.len() > 0,
        0 <= start <= i,
        i + p.len() <= s.len(),
        !exhausted(limit),
    ensures
        occurs_at(s, p, i) ==> replace_scan(s, p, r, start, i, limit) == s.subrange(start, i) + r
            + replace_scan(s, p, r, i + p.len(), i + p.len(), one_less(limit)),
        !occurs_at(s, p, i) ==> replace_scan(s, p, r, start, i, limit) == replace_scan(
            s,
            p,
            r,
            start,
            i + 1,
            limit,
        ),
{
}

/// `s` with its first `limit` (all, for `None`) leftmost non-overlapping
/// occurrences of `p` replaced by `r`.
pub fn replace_text(s: &str, p: &str, r: &str, limit: Option<usize>) -> (out: String)
    ensures
        out@ == replace_limited(s@, p@, r@, limit_of(limit)),
{
    let sv = chars_of(s);
    let pv = chars_of(p);
    let n = sv.len();
    let m = pv.len();
    let mut out = String::new();
    let mut left = limit;
    if m == 0 {
        let mut k: usize = 0;
        assert(s@.subrange(0, n as int) =~= s@);
        assert(out@ + replace_empty(s@.subrange(0, n as int), r@, limit_of(left)) =~= replace_limited(
            s@,
            p@,
            r@,
            limit_of(limit),
        ));
        loop
            invariant
                sv@ == s@,
                n == s@.len(),
                p@.len() == 0,
                0 <= k <= n,
                out@ + replace_empty(s@.subrange(k as int, n as int), r@, limit_of(left))
                    == replace_limited(s@, p@, r@, limit_of(limit)),
            decreases n - k,
        {
            let done = match left {
                Some(j) => j == 0,
                None => false,
            };
            let ghost before = out@;
            if done {
                out.append(s.substring_char(k, n));
                assert(out@ =~= before + replace_empty(
                    s@.subrange(k as int, n as int),
                    r@,
                    limit_of(left),
                ));
                return out;
            }
            if k == n {
                out.append(r);
                return out;
            }
            out.append(r);
            out.append(s.substring_char(k, k + 1));
            proof {
                let rest = s@.subrange(k as int, n as int);
                assert(rest.drop_first() =~= s@.subrange(k + 1, n as int));
                assert(s@.subrange(k as int, k + 1) =~= seq![rest[0]]);
                assert(out@ + replace_empty(rest.drop_first(), r@, one_less(limit_of(left)))
                    =~= before + replace_empty(rest, r@, limit_of(left)));
            }
            left = match left {
                Some(j) => Some(j - 1),
                None => None,
            };
            k = k + 1;
        }
    }
    let mut start: usize = 0;
    let mut i: usize = 0;
    assert(s@.subrange(0, 0) =~= Seq::<char>::empty());
    loop
        invariant
            sv@ == s@,
            pv@ == p@,
            n == s@.len(),
            m == p@.len(),
            m > 0,
            0 <= start <= i <= n,
            out@ + replace_scan(s@, p@, r@, start as int, i as int, limit_of(left))
                == replace_limited(s@, p@, r@, limit_of(limit)),
        decreases n - i,
    {
        let done = match left {
            Some(j) => j == 0,
            None => false,
        };
        if done || m > n - i {
            let ghost before = out@;
            out.append(s.substring_char(start, n));
            assert(out@ =~= before + replace_scan(s@, p@, r@, start as int, i as int, limit_of(left)));
            return out;
        }
        let ghost before = out@;
        proof {
            lemma_replace_scan_step(s@, p@, r@, start as int, i as int, limit_of(left));
        }
        if matches_at(&sv, &pv, i) {
            out.append(s.substring_char(start, i));
            out.append(r);
            proof {
                assert(out@ + replace_scan(
                    s@,
                    p@,
                    r@,
                    i + m,
                    i + m,
                    one_less(limit_of(left)),
                ) =~= before + replace_scan(s@, p@, r@, start as int, i as int, limit_of(left)));
            }
            left = match left {
                Some(j) => Some(j - 1),
                None => None,
            };
            i = i + m;
            start = i;
        } else {
            i = i + 1;
        }
    }
}

/// `s` with every whole occurrence of `p` replaced by `r`; see
/// [`replace_whole`].
pub fn replace_whole_text(s: &str, p: &str, r: &str) -> (out: String)
    ensures
        out@ == replace_whole(s@, p@, r@),
{
    let sv = chars_of(s);
    let pv = chars_of(p);
    let n = sv.len();
    let m = pv.len();
    let mut out = String::new();
    let mut start: usize = 0;
    let mut i: usize = 0;
    assert(s@.subrange(0, 0) =~= Seq::<char>::empty());
    if m == 0 {
        out.append(s);
        assert(s@.subrange(0, n as int) =~= s@);
        return out;
    }
    loop
        invariant
            sv@ == s@,
            pv@ == p@,
            n == s@.len(),
            m == p@.len(),
            m > 0,
            0 <= start <= i <= n,
            out@ + replace_whole_scan(s@, p@, r@, start as int, i as int) == replace_whole(
                s@,
                p@,
                r@,
            ),
        decreases n - i,
    {
        let ghost before = out@;
        if m > n - i {
            out.append(s.substring_char(start, n));
            assert(out@ =~= before + replace_whole_scan(s@, p@, r@, start as int, i as int));
            return out;
        }
        let whole = matches_at(&sv, &pv, i) && !(i + m < n && '0' <= sv[i + m] && sv[i + m]
            <= '9');
        if whole {
            out.append(s.substring_char(start, i));
            out.append(r);
            proof {
                assert(occurs_whole_at(s@, p@, i as int));
                assert(out@ + replace_whole_scan(s@, p@, r@, i + m, i + m) =~= before
                    + replace_whole_scan(s@, p@, r@, start as int, i as int));
            }
            i = i + m;
            start = i;
        } else {
            assert(!occurs_whole_at(s@, p@, i as int));
            i = i + 1;
        }
    }
}

/// `s` without any trailing run of the character `c`.
pub fn trim_end_text<'a>(s: &'a str, c: char) -> (out: &'a str)
    ensures
        out@ == trim_end(s@, c),
{
    let sv = chars_of(s);
    let mut k: usize = sv.len();
    assert(s@.subrange(0, k as int) =~= s@);
    while k > 0 && sv[k - 1] == c
        invariant
            sv@ == s@,
            k <= sv.len(),
            trim_end(s@, c) == trim_end(s@.subrange(0, k as int), c),
        decreases k,
    {
        assert(s@.subrange(0, k as int).drop_last() =~= s@.subrange(0, k - 1));
        k = k - 1;
    }
    s.substring_char(0, k)
}

/// The string holding just the decimal digit `d`.
fn digit_text(d: usize) -> (t: &'static str)
    requires
        d < 10,
    ensures
        t@ == seq![digit_char(d as nat)],
{
    if d == 0 {
        proof { reveal_strlit("0"); }
        "0"
    } else if d == 1 {
        proof { reveal_strlit("1"); }
        "1"
    } else if d == 2 {
        proof { reveal_strlit("2"); }
        "2"
    } else if d == 3 {
        proof { reveal_strlit("3"); }
        "3"
    } else if d == 4 {
        proof { reveal_strlit("4"); }
        "4"
    } else if d == 5 {
        proof { reveal_strlit("5"); }
        "5"
    } else if d == 6 {
        proof { reveal_strlit("6"); }
        "6"
    } else if d == 7 {
        proof { reveal_strlit("7"); }
        "7"
    } else if d == 8 {
        proof { reveal_strlit("8"); }
        "8"
    } else {
        proof { reveal_strlit("9"); }
        "9"
    }
}

/// Decimal rendering of `n`.
pub fn decimal_text(n: usize) -> (t: String)
    ensures
        t@ == decimal(n as nat),
    decreases n,
{
    if n < 10 {
        let mut t = String::new();
        t.append(digit_text(n));
        assert(t@ =~= decimal(n as nat));
        t
    } else {
        let mut t = decimal_text(n / 10);
        t.append(digit_text(n % 10));
        t
    }
}

proof fn lemma_digits_value_prefix(s: Seq<char>, k: int)
    requires
        0 <= k <= s.len(),
        forall|j: int| 0 <= j < s.len() ==> is_digit(#[trigger] s[j]),
    ensures
        digits_value(s.subrange(0, k)) <= digits_value(s),
    decreases s.len() - k,
{
    if k < s.len() {
        lemma_digits_value_prefix(s, k + 1);
        let t = s.subrange(0, k + 1);
        assert(t.drop_last() =~= s.subrange(0, k));
        assert(is_digit(t.last()));
    } else {
        assert(s.subrange(0, k) =~= s);
    }
}

proof fn lemma_overflowing_prefix(body: Seq<char>, k: int)
    requires
        0 < k <= body.len(),
        digits_value(body.subrange(0, k)) > usize::MAX,
    ensures
        !(body.len() > 0 && (forall|j: int| 0 <= j < body.len() ==> is_digit(#[trigger] body[j]))
            && digits_value(body) <= usize::MAX),
{
    if forall|j: int| 0 <= j < body.len() ==> is_digit(#[trigger] body[j]) {
        lemma_digits_value_prefix(body, k);
    }
}

/// The `usize` that `s` spells in decimal, if it spells one.
pub fn parse_usize(s: &str) -> (r: Option<usize>)
    ensures
        r matches Some(v) ==> parse_usize_spec(s@) == Some(v as nat),
        r is None ==> parse_usize_spec(s@) is None,
{
    let sv = chars_of(s);
    let mut k: usize = 0;
    if sv.len() > 0 && sv[0] == '+' {
        k = 1;
    }
    let ghost body = unsigned_body(s@);
    assert(body =~= s@.subrange(k as int, s@.len() as int));
    if k == sv.len() {
        return None;
    }
    let first = k;
    let mut acc: usize = 0;
    while k < sv.len()
        invariant
            sv@ == s@,
            body == s@.subrange(first as int, s@.len() as int),
            body == unsigned_body(s@),
            first <= k <= sv.len(),
            forall|j: int| 0 <= j < k - first ==> is_digit(#[trigger] body[j]),
            acc as nat == digits_value(body.subrange(0, k - first)),
        decreases sv.len() - k,
    {
        let c = sv[k];
        if !('0' <= c && c <= '9') {
            assert(body[k - first] == c);
            assert(!is_digit(body[k - first]));
            return None;
        }
        let d = ((c as u32) - 48) as usize;
        let ghost prefix = body.subrange(0, k + 1 - first);
        assert(prefix.drop_last() =~= body.subrange(0, k - first));
        assert(prefix.last() == c);
        assert(is_digit(prefix.last()));
        assert(digits_value(prefix) == acc * 10 + d);
        match acc.checked_mul(10) {
            None => {
                proof {
                    lemma_overflowing_prefix(body, k + 1 - first);
                }
                return None;
            },
            Some(t) => {
                match t.checked_add(d) {
                    None => {
                        proof {
                            lemma_overflowing_prefix(body, k + 1 - first);
                        }
                        return None;
                    },
                    Some(v) => {
                        acc = v;
                    },
                }
            },
        }
        k = k + 1;
    }
    assert(body.subrange(0, k - first) =~= body);
    Some(acc)
}

// ---------------------------------------------------------------------
// Byte offsets into UTF-8 text
// ---------------------------------------------------------------------

/// Length of the UTF-8 encoding of `s`, in bytes.
pub open spec fn byte_len(s: Seq<char>) -> nat {
    encode_utf8(s).len()
}

/// Byte offset `i` falls on a character boundary of the UTF-8 encoding of
/// `s` (the end of the encoding counts as one).
pub open spec fn on_boundary(s: Seq<char>, i: int) -> bool {
    is_char_boundary(encode_utf8(s), i)
}

/// The text between the byte offsets `a` and `b` of the UTF-8 encoding of
/// `s`.
pub open spec fn byte_range(s: Seq<char>, a: int, b: int) -> Seq<char> {
    decode_utf8(encode_utf8(s).subrange(a, b))
}

/// Encoding a concatenation encodes each part in turn.
pub proof fn lemma_encode_concat(a: Seq<char>, b: Seq<char>)
    ensures
        encode_utf8(a + b) == encode_utf8(a) + encode_utf8(b),
    decreases a.len(),
{
    if a.len() == 0 {
        assert(a + b =~= b);
        assert(encode_utf8(a) + encode_utf8(b) =~= encode_utf8(b));
    } else {
        lemma_encode_concat(a.drop_first(), b);
        assert((a + b).drop_first() =~= a.drop_first() + b);
        assert((a + b)[0] == a[0]);
        assert(encode_utf8(a + b) =~= encode_scalar(a[0] as u32) + encode_utf8(a.drop_first() + b));
    }
}

/// Length of the UTF-8 encoding of `s`, in bytes.
pub fn byte_length(s: &str) -> (n: usize)
    ensures
        n == byte_len(s@),
{
    broadcast use vstd::slice::group_slice_axioms;

    s.as_bytes().len()
}

/// A boundary of a valid encoding at or after another boundary `a` is also
/// a boundary of the bytes that follow `a`.
proof fn lemma_boundary_in_suffix(bytes: Seq<u8>, a: int, b: int)
    requires
        valid_utf8(bytes),
        is_char_boundary(bytes, a),
        is_char_boundary(bytes, b),
        a <= b,
    ensures
        0 <= a <= b <= bytes.len(),
        valid_utf8(bytes.subrange(a, bytes.len() as int)),
        is_char_boundary(bytes.subrange(a, bytes.len() as int), b - a),
{
    broadcast use vstd::utf8::group_utf8_lib;

    reveal_with_fuel(is_char_boundary, 1);
    assert(0 <= a <= bytes.len());
    assert(0 <= b <= bytes.len());
    let suffix = bytes.subrange(a, bytes.len() as int);
    assert(valid_utf8(suffix));
    if b == bytes.len() {
        assert(is_char_boundary(suffix, suffix.len() as int));
    } else {
        assert(!is_continuation_byte(bytes[b]));
        assert(suffix[b - a] == bytes[b]);
        assert(is_char_boundary(suffix, b - a));
    }
}

/// The text of `s` between two byte offsets that fall on character
/// boundaries.
pub fn slice_bytes<'a>(s: &'a str, a: usize, b: usize) -> (r: &'a str)
    requires
        a <= b,
        on_boundary(s@, a as int),
        on_boundary(s@, b as int),
    ensures
        r@ == byte_range(s@, a as int, b as int),
        b <= byte_len(s@),
{
    broadcast use vstd::utf8::group_utf8_lib;

    let ghost bytes = encode_utf8(s@);
    proof {
        lemma_boundary_in_suffix(bytes, a as int, b as int);
    }
    let (_, rest) = s.split_at(a);
    assert(rest.spec_bytes() =~= bytes.subrange(a as int, bytes.len() as int));
    let (r, _) = rest.split_at(b - a);
    assert(r.spec_bytes() =~= bytes.subrange(a as int, b as int));
    assert(decode_utf8(encode_utf8(r@)) == r@);
    r
}

} // verus!
