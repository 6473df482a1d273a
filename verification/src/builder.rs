use std::string::FromUtf8Error;
use string_builder::Builder;
use vstd::prelude::*;
use vstd::utf8::{decode_utf8, encode_utf8, valid_utf8};

verus! {

/// `string_builder::Builder`, a growing buffer of bytes.
#[verifier::external_type_specification]
#[verifier::external_body]
pub struct ExBuilder(string_builder::Builder);

/// `std::string::FromUtf8Error`, what `Builder::string` gives for bytes that
/// are no UTF-8.
#[verifier::external_type_specification]
#[verifier::external_body]
pub struct ExFromUtf8Error(std::string::FromUtf8Error);

/// The bytes that a builder holds.
pub uninterp spec fn builder_bytes(builder: Builder) -> Seq<u8>;

/// `Builder::default`: a builder that holds no bytes.
#[verifier::external_body]
fn builder_default() -> (builder: Builder)
    ensures
        builder_bytes(builder) == Seq::<u8>::empty(),
{
    Builder::default()
}

/// `Builder::append` with a string slice: puts the bytes of the string, which
/// are its UTF-8 encoding, behind those that the builder holds.
#[verifier::external_body]
fn builder_append(builder: &mut Builder, text: &str)
    ensures
        builder_bytes(*final(builder)) == builder_bytes(*old(builder)) + encode_utf8(text@),
{
    builder.append(text)
}

/// `Builder::string`: the string whose UTF-8 encoding the bytes of the
/// builder are, and an error where they are no UTF-8.
pub assume_specification[ Builder::string ](builder: Builder) -> (made: Result<
    String,
    FromUtf8Error,
>)
    ensures
        match made {
            Ok(text) => encode_utf8(text@) == builder_bytes(builder),
            Err(_) => !valid_utf8(builder_bytes(builder)),
        },
;

/// The bytes of a builder are the encoding of a text.
pub closed spec fn holds_text(builder: Builder) -> bool {
    valid_utf8(builder_bytes(builder))
}

/// The text whose encoding a builder holds.
pub closed spec fn text_of(builder: Builder) -> Seq<char> {
    decode_utf8(builder_bytes(builder))
}

/// The encoding of two texts in a row is the two encodings in a row.
pub proof fn lemma_encode_concat(a: Seq<char>, b: Seq<char>)
    ensures
        encode_utf8(a + b) == encode_utf8(a) + encode_utf8(b),
    decreases a.len(),
{
    if a.len() == 0 {
        assert(a + b =~= b);
        assert(encode_utf8(a) + encode_utf8(b) =~= encode_utf8(b));
    } else {
        lemma_encode_concat(a.drop_first(), b);
        assert((a + b).drop_first() =~= a.drop_first() + b);
        assert((a + b)[0] == a[0]);
        assert(encode_utf8(a + b) =~= encode_utf8(a) + encode_utf8(b));
    }
}

/// A builder that holds the empty text.
pub(crate) fn new_text() -> (builder: Builder)
    ensures
        holds_text(builder),
        text_of(builder) == Seq::<char>::empty(),
{
    let builder = builder_default();
    assert(text_of(builder) =~= Seq::<char>::empty());
    builder
}

/// Puts `text` behind the text that the builder holds.
pub(crate) fn push_text(builder: &mut Builder, text: &str)
    requires
        holds_text(*old(builder)),
    ensures
        holds_text(*final(builder)),
        text_of(*final(builder)) == text_of(*old(builder)) + text@,
{
    let ghost before = builder_bytes(*builder);
    builder_append(builder, text);
    proof {
        vstd::utf8::decode_utf8_encode_utf8(before);
        lemma_encode_concat(decode_utf8(before), text@);
        vstd::utf8::encode_utf8_valid_utf8(decode_utf8(before) + text@);
        vstd::utf8::encode_utf8_decode_utf8(decode_utf8(before) + text@);
    }
}

/// The text that the builder holds, as a string.
pub(crate) fn into_text(builder: Builder) -> (text: String)
    requires
        holds_text(builder),
    ensures
        text@ == text_of(builder),
{
    match builder.string() {
        Ok(text) => {
            proof {
                vstd::utf8::encode_utf8_decode_utf8(text@);
            }
            text
        },
        // A text is UTF-8, so the bytes of the builder are.
        Err(_) => vstd::pervasive::unreached(),
    }
}

} // verus!
