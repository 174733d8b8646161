//! The list of function names declared in a source text.

use vstd::prelude::*;

use crate::buffer::{append_text, builder_bytes, builder_text, empty_builder};
use crate::error::BuildError;
use crate::pattern::{compile_pattern, find_spans, regex_compiles, regex_find_spans};
use crate::buildre::span_texts;
use crate::text::{byte_len, byte_length, byte_range, join_pieces, on_boundary, slice_bytes};
use vstd::utf8::*;

verus! {

broadcast use vstd::utf8::group_utf8_lib;

/// The pattern of a function declaration: `fn`, a space, and a name of
/// lower-case letters and underscores.
pub open spec fn declaration_pattern() -> Seq<char> {
    "fn [a-z_]{1,}"@
}

/// Names, in front of the names a later step gives.
pub open spec fn prepend_names(front: Seq<Seq<char>>, r: Result<Seq<Seq<char>>, BuildError>) -> Result<
    Seq<Seq<char>>,
    BuildError,
> {
    match r {
        Err(e) => Err(e),
        Ok(rest) => Ok(front + rest),
    }
}

/// The declared names: each declaration longer than three bytes without its
/// first three bytes, which must end on a character boundary.
pub open spec fn declared_names(decls: Seq<Seq<char>>) -> Result<Seq<Seq<char>>, BuildError>
    decreases decls.len(),
{
    if decls.len() == 0 {
        Ok(Seq::empty())
    } else {
        let d = decls[0];
        if byte_len(d) > 3 {
            if on_boundary(d, 3) {
                prepend_names(
                    seq![byte_range(d, 3, byte_len(d) as int)],
                    declared_names(decls.drop_first()),
                )
            } else {
                Err(BuildError::SliceOutOfRange)
            }
        } else {
            declared_names(decls.drop_first())
        }
    }
}

pub(crate) proof fn lemma_join_push(x: Seq<Seq<char>>, y: Seq<char>, d: Seq<char>)
    ensures
        join_pieces(x.push(y), d) == if x.len() == 0 {
            y
        } else {
            join_pieces(x, d) + d + y
        },
    decreases x.len(),
{
    if x.len() == 0 {
        assert(x.push(y) =~= seq![y]);
    } else if x.len() == 1 {
        assert(x.push(y)[0] == x[0]);
        assert(x.push(y).drop_first() =~= seq![y]);
        assert(join_pieces(seq![y], d) == y);
    } else {
        assert(x.push(y)[0] == x[0]);
        assert(x.push(y).drop_first() =~= x.drop_first().push(y));
        lemma_join_push(x.drop_first(), y, d);
        assert(x[0] + d + (join_pieces(x.drop_first(), d) + d + y) =~= (x[0] + d + join_pieces(
            x.drop_first(),
            d,
        )) + d + y);
    }
}

/// The function list of a source text.
pub open spec fn function_list_outcome(text: Seq<char>) -> Result<Seq<char>, BuildError> {
    if !regex_compiles(declaration_pattern()) {
        Err(BuildError::InvalidFunctionPattern)
    } else {
        let decls = span_texts(text, regex_find_spans(declaration_pattern(), text));
        match declared_names(decls) {
            Err(e) => Err(e),
            Ok(names) => Ok(join_pieces(names, ","@)),
        }
    }
}

/// The names of all the functions declared in `text`, in order, joined by
/// commas; see
/// [`function_list_outcome`].
pub fn function_list(text: &str) -> (r: Result<String, BuildError>)
    ensures
        match r {
            Ok(s) => function_list_outcome(text@) == Ok::<Seq<char>, BuildError>(s@),
            Err(e) => function_list_outcome(text@) == Err::<Seq<char>, BuildError>(e),
        },
{
    let pattern = "fn [a-z_]{1,}";
    let re = match compile_pattern(pattern) {
        Ok(re) => re,
        Err(_) => {
            return Err(BuildError::InvalidFunctionPattern);
        },
    };
    let spans = find_spans(&re, text);
    let ghost decls = span_texts(text@, spans@);
    let ghost want = declared_names(decls);
    let mut functions: Vec<&str> = Vec::new();
    let mut k: usize = 0;
    assert(decls.skip(0) =~= decls);
    assert(prepend_names(functions@.map_values(|f: &str| f@), want) =~= want);
    while k < spans.len()
        invariant
            decls == span_texts(text@, spans@),
            spans@ == regex_find_spans(re@, text@),
            re@ == declaration_pattern(),
            regex_compiles(declaration_pattern()),
            forall|j: int|
                0 <= j < spans@.len() ==> {
                    &&& (#[trigger] spans@[j]).0 <= spans@[j].1
                    &&& on_boundary(text@, spans@[j].0 as int)
                    &&& on_boundary(text@, spans@[j].1 as int)
                },
            0 <= k <= spans.len(),
            want == declared_names(decls),
            want == prepend_names(
                functions@.map_values(|f: &str| f@),
                declared_names(decls.skip(k as int)),
            ),
        decreases spans.len() - k,
    {
        let (a, b) = spans[k];
        let capture = slice_bytes(text, a, b);
        let ghost rest = decls.skip(k as int);
        assert(rest[0] == capture@);
        assert(rest.drop_first() =~= decls.skip(k + 1));
        let len = byte_length(capture);
        if len > 3 {
            if !capture.is_char_boundary(3) {
                assert(declared_names(rest) == Err::<Seq<Seq<char>>, BuildError>(
                    BuildError::SliceOutOfRange,
                ));
                return Err(BuildError::SliceOutOfRange);
            }
            let name = slice_bytes(capture, 3, len);
            let ghost before = functions@.map_values(|f: &str| f@);
            functions.push(name);
            proof {
                assert(functions@.map_values(|f: &str| f@) =~= before + seq![name@]);
                let later = declared_names(decls.skip(k + 1));
                match later {
                    Err(e) => {},
                    Ok(more) => {
                        assert(before + (seq![name@] + more) =~= functions@.map_values(
                            |f: &str| f@,
                        ) + more);
                    },
                }
            }
        }
        k = k + 1;
    }
    assert(decls.skip(k as int) =~= Seq::<Seq<char>>::empty());
    let ghost names = functions@.map_values(|f: &str| f@);
    assert(names + Seq::<Seq<char>>::empty() =~= names);
    let mut builder = empty_builder();
    let mut done: usize = 0;
    assert(names.take(0) =~= Seq::<Seq<char>>::empty());
    while done < functions.len()
        invariant
            names == functions@.map_values(|f: &str| f@),
            0 <= done <= functions.len(),
            regex_compiles(declaration_pattern()),
            decls == span_texts(text@, regex_find_spans(declaration_pattern(), text@)),
            declared_names(decls) == Ok::<Seq<Seq<char>>, BuildError>(names),
            valid_utf8(builder_bytes(builder)),
            decode_utf8(builder_bytes(builder)) == join_pieces(names.take(done as int), ","@),
        decreases functions.len() - done,
    {
        let ghost before = names.take(done as int);
        if done > 0 {
            append_text(&mut builder, ",");
        }
        append_text(&mut builder, functions[done]);
        proof {
            assert(names.take(done + 1) =~= before.push(names[done as int]));
            lemma_join_push(before, names[done as int], ","@);
        }
        done = done + 1;
    }
    assert(names.take(done as int) =~= names);
    Ok(builder_text(builder))
}

} // verus!
