//! The byte buffer of the `string-builder` crate, used to assemble output.

use std::string::FromUtf8Error;
use string_builder::Builder;
use vstd::prelude::*;
use vstd::string::StringSliceAdditionalSpecFns;
use vstd::utf8::*;

verus! {

#[verifier::external_type_specification]
#[verifier::external_body]
pub struct ExBuilder(Builder);

#[verifier::external_type_specification]
#[verifier::external_body]
pub struct ExFromUtf8Error(FromUtf8Error);

/// The bytes a builder holds.
pub uninterp spec fn builder_bytes(b: Builder) -> Seq<u8>;

/// `Builder::default`. Trusted: the new builder holds no bytes.
#[verifier::external_body]
pub(crate) fn new_builder() -> (b: Builder)
    ensures
        builder_bytes(b) == Seq::<u8>::empty(),
{
    Builder::default()
}

/// `Builder::append` of a string slice. Trusted: the builder's bytes are
/// extended by the UTF-8 bytes of the slice.
#[verifier::external_body]
pub(crate) fn builder_append(b: &mut Builder, s: &str)
    ensures
        builder_bytes(*final(b)) == builder_bytes(*old(b)) + s.spec_bytes(),
{
    b.append(s)
}

/// `Builder::string`. Trusted: the result is `Ok` exactly when the held bytes
/// are valid UTF-8, and then the string's UTF-8 bytes are those bytes.
#[verifier::external_body]
pub(crate) fn builder_string(b: Builder) -> (r: Result<String, FromUtf8Error>)
    ensures
        r is Ok <==> valid_utf8(builder_bytes(b)),
        r matches Ok(s) ==> encode_utf8(s@) == builder_bytes(b),
{
    b.string()
}

/// The text a builder holds, when its bytes are valid UTF-8.
pub fn builder_text(b: Builder) -> (s: String)
    requires
        valid_utf8(builder_bytes(b)),
    ensures
        s@ == decode_utf8(builder_bytes(b)),
{
    broadcast use vstd::utf8::group_utf8_lib;

    let r = builder_string(b);
    let s = r.unwrap();
    assert(decode_utf8(encode_utf8(s@)) == s@);
    s
}

/// Appends `s` to a builder whose bytes are valid UTF-8; the text the
/// builder holds grows by `s`.
pub fn append_text(b: &mut Builder, s: &str)
    requires
        valid_utf8(builder_bytes(*old(b))),
    ensures
        valid_utf8(builder_bytes(*final(b))),
        decode_utf8(builder_bytes(*final(b))) == decode_utf8(builder_bytes(*old(b))) + s@,
{
    broadcast use vstd::utf8::group_utf8_lib;

    let ghost before = decode_utf8(builder_bytes(*b));
    builder_append(b, s);
    proof {
        assert(encode_utf8(before) == builder_bytes(*old(b)));
        crate::text::lemma_encode_concat(before, s@);
        assert(builder_bytes(*b) == encode_utf8(before + s@));
    }
}

/// A builder that holds no text.
pub fn empty_builder() -> (b: Builder)
    ensures
        valid_utf8(builder_bytes(b)),
        decode_utf8(builder_bytes(b)) == Seq::<char>::empty(),
{
    broadcast use vstd::utf8::group_utf8_lib;

    let b = new_builder();
    assert(encode_utf8(Seq::<char>::empty()) =~= Seq::<u8>::empty());
    b
}

} // verus!
