//! Byte-level text helpers shared by the registry and the query tools.

use vstd::prelude::*;
use vstd::slice::slice_subrange;
use vstd::string::StringSliceAdditionalSpecFns;
use vstd::utf8::{
    decode_first_scalar, decode_utf8, decode_utf8_encode_utf8, encode_utf8,
    encode_utf8_decode_utf8, encode_utf8_valid_utf8, is_ascii_chars, is_ascii_chars_encode_utf8,
    length_of_first_scalar, pop_first_scalar, valid_first_scalar, valid_utf8, valid_utf8_concat,
};

verus! {

/// The ASCII double quote.
pub const QUOTE: u8 = 34;

/// The ASCII colon that separates a label from a local name.
pub const COLON: u8 = 58;

/// The ASCII line feed.
pub const NEWLINE: u8 = 10;

/// `s` without one leading and without one trailing double quote.
///
/// The trailing quote is looked for in what is left once the leading one is
/// gone, so a lone quote yields the empty sequence.
pub open spec fn strip_quotes(s: Seq<u8>) -> Seq<u8> {
    let head = if s.len() > 0 && s[0] == QUOTE {
        s.skip(1)
    } else {
        s
    };
    if head.len() > 0 && head.last() == QUOTE {
        head.drop_last()
    } else {
        head
    }
}

/// `bytes` with surrounding double quotes removed, one at each end at most.
pub fn strip_quote_bytes<'a>(bytes: &'a [u8]) -> (inner: &'a [u8])
    ensures
        inner@ == strip_quotes(bytes@),
{
    let mut from: usize = 0;
    let mut to: usize = bytes.len();
    if from < to && bytes[from] == QUOTE {
        from = 1;
    }
    if from < to && bytes[to - 1] == QUOTE {
        to = to - 1;
    }
    let inner = slice_subrange(bytes, from, to);
    assert(inner@ =~= strip_quotes(bytes@));
    inner
}

/// The bytes of `uri` with surrounding double quotes removed, one at each end
/// at most.
pub fn transform_to_bytes<'a>(uri: &'a str) -> (bytes: &'a [u8])
    ensures
        bytes@ == strip_quotes(uri.spec_bytes()),
{
    strip_quote_bytes(uri.as_bytes())
}

/// Tests whether `uri` starts with `namespace`, byte for byte.
///
/// A namespace longer than `uri` does not match. On a match the namespace is
/// handed back together with the index in `uri` at which the local name starts.
pub fn match_namespace<'b>(uri: &[u8], namespace: &'b Vec<u8>) -> (found: Option<(&'b Vec<u8>, usize)>)
    ensures
        found is Some <==> namespace@.is_prefix_of(uri@),
        found matches Some(pair) ==> pair.0 == namespace && pair.1 == namespace@.len(),
{
    if namespace.len() > uri.len() {
        return None;
    }
    let mut i: usize = 0;
    while i < namespace.len()
        invariant
            i <= namespace@.len() <= uri@.len(),
            uri@.subrange(0, i as int) =~= namespace@.subrange(0, i as int),
        decreases namespace@.len() - i,
    {
        if uri[i] != namespace[i] {
            assert(uri@.subrange(0, namespace@.len() as int)[i as int] != namespace@[i as int]);
            return None;
        }
        assert(uri@.subrange(0, i + 1) =~= uri@.subrange(0, i as int).push(uri@[i as int]));
        assert(namespace@.subrange(0, i + 1) =~= namespace@.subrange(0, i as int).push(
            namespace@[i as int],
        ));
        i = i + 1;
    }
    assert(namespace@.subrange(0, i as int) =~= namespace@);
    Some((namespace, i))
}

/// Appends `src` to `dst`.
pub fn append_bytes(dst: &mut Vec<u8>, src: &[u8])
    ensures
        final(dst)@ == old(dst)@ + src@,
{
    let mut i: usize = 0;
    while i < src.len()
        invariant
            i <= src@.len(),
            dst@ =~= old(dst)@ + src@.subrange(0, i as int),
        decreases src@.len() - i,
    {
        dst.push(src[i]);
        i = i + 1;
    }
    assert(src@.subrange(0, i as int) =~= src@);
}

/// Every byte is an ASCII character.
pub open spec fn is_ascii_bytes(bytes: Seq<u8>) -> bool {
    forall|i: int| 0 <= i < bytes.len() ==> #[trigger] bytes[i] < 128
}

/// The characters that ASCII bytes stand for.
pub open spec fn ascii_text(bytes: Seq<u8>) -> Seq<char> {
    Seq::new(bytes.len(), |i: int| bytes[i] as char)
}

/// ASCII bytes are well-formed UTF-8 and decode to their characters.
pub proof fn lemma_ascii_decodes(bytes: Seq<u8>)
    requires
        is_ascii_bytes(bytes),
    ensures
        valid_utf8(bytes),
        decode_utf8(bytes) == ascii_text(bytes),
{
    let chars = ascii_text(bytes);
    assert(is_ascii_chars(chars)) by {
        assert forall|i: int| 0 <= i < chars.len() implies '\0' <= #[trigger] chars[i]
            <= '\u{7f}' by {
            assert(bytes[i] < 128);
        }
    }
    is_ascii_chars_encode_utf8(chars);
    assert(encode_utf8(chars) =~= bytes) by {
        assert forall|i: int| 0 <= i < bytes.len() implies encode_utf8(chars)[i] == bytes[i] by {
            assert(bytes[i] < 128);
            assert(chars[i] as u8 == bytes[i]);
        }
    }
    encode_utf8_valid_utf8(chars);
    encode_utf8_decode_utf8(chars);
}

/// Well-formed UTF-8 behind well-formed UTF-8 decodes to the one text behind
/// the other.
pub proof fn lemma_decode_concat(a: Seq<u8>, b: Seq<u8>)
    requires
        valid_utf8(a),
        valid_utf8(b),
    ensures
        valid_utf8(a + b),
        decode_utf8(a + b) == decode_utf8(a) + decode_utf8(b),
    decreases a.len(),
{
    valid_utf8_concat(a, b);
    if a.len() == 0 {
        assert(a + b =~= b);
        assert(decode_utf8(a) + decode_utf8(b) =~= decode_utf8(b));
    } else {
        let rest = pop_first_scalar(a);
        assert(valid_first_scalar(a));
        assert(length_of_first_scalar(a) <= a.len());
        assert(length_of_first_scalar(a + b) == length_of_first_scalar(a));
        assert(pop_first_scalar(a + b) =~= rest + b);
        assert(decode_first_scalar(a + b) == decode_first_scalar(a));
        lemma_decode_concat(rest, b);
        assert(decode_utf8(a + b) =~= decode_utf8(a) + decode_utf8(b));
    }
}

/// The encoding of one text behind another is the one encoding behind the
/// other.
pub proof fn lemma_encode_concat(a: Seq<char>, b: Seq<char>)
    ensures
        encode_utf8(a + b) == encode_utf8(a) + encode_utf8(b),
{
    encode_utf8_valid_utf8(a);
    encode_utf8_valid_utf8(b);
    encode_utf8_decode_utf8(a);
    encode_utf8_decode_utf8(b);
    lemma_decode_concat(encode_utf8(a), encode_utf8(b));
    decode_utf8_encode_utf8(encode_utf8(a) + encode_utf8(b));
}

/// The text that lossy UTF-8 decoding makes of `bytes`: every ill-formed part
/// is replaced by U+FFFD.
pub uninterp spec fn utf8_lossy(bytes: Seq<u8>) -> Seq<char>;

/// Calls `String::from_utf8_lossy` and owns the outcome.
///
/// Trusted: the result is the lossy decoding of `bytes`, which for well-formed
/// UTF-8 is the plain decoding.
#[verifier::external_body]
pub(crate) fn decode_lossy(bytes: &[u8]) -> (text: String)
    ensures
        text@ == utf8_lossy(bytes@),
        valid_utf8(bytes@) ==> text@ == decode_utf8(bytes@),
{
    String::from_utf8_lossy(bytes).into_owned()
}

} // verus!
