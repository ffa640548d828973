//! Bytes from outside: what text they hold.
use vstd::prelude::*;

use vstd::utf8::{decode_utf8, encode_utf8, encode_utf8_decode_utf8, valid_utf8};

verus! {

/// The words in which `core::str::from_utf8` refuses bytes.
pub uninterp spec fn utf8_complaint(bytes: Seq<u8>) -> Seq<char>;

/// `core::str::from_utf8` gives the text whose UTF-8 encoding the bytes are, if
/// they are the encoding of one. Else its error says what is wrong, in words that
/// depend on the bytes alone.
#[verifier::external_body]
pub(crate) fn utf8_text(bytes: &[u8]) -> (r: Result<&str, String>)
    ensures
        match r {
            Ok(s) => valid_utf8(bytes@) && encode_utf8(s@) == bytes@,
            Err(e) => !valid_utf8(bytes@) && e@ == utf8_complaint(bytes@),
        },
{
    core::str::from_utf8(bytes).map_err(|e| e.to_string())
}

/// The text that the bytes encode; empty if they encode none.
pub open spec fn text_or_empty(bytes: Seq<u8>) -> Seq<char> {
    if valid_utf8(bytes) {
        decode_utf8(bytes)
    } else {
        Seq::empty()
    }
}

/// The text that the bytes encode, or an empty one.
pub fn decoded(bytes: &[u8]) -> (r: String)
    ensures
        r@ == text_or_empty(bytes@),
{
    match utf8_text(bytes) {
        Ok(s) => {
            proof {
                encode_utf8_decode_utf8(s@);
            }
            s.to_string()
        },
        Err(_) => String::new(),
    }
}

/// Whether the bytes are the encoding of `s`.
pub fn bytes_are(bytes: &[u8], s: &str) -> (r: bool)
    ensures
        r == (bytes@ == encode_utf8(s@)),
{
    let b = s.as_bytes();
    if bytes.len() != b.len() {
        return false;
    }
    let mut i: usize = 0;
    while i < b.len()
        invariant
            b@ == encode_utf8(s@),
            bytes.len() == b.len(),
            i <= b.len(),
            forall|k: int| 0 <= k < i ==> bytes@[k] == b@[k],
        decreases b.len() - i,
    {
        if bytes[i] != b[i] {
            assert(bytes@[i as int] != encode_utf8(s@)[i as int]);
            return false;
        }
        i += 1;
    }
    assert(bytes@ =~= encode_utf8(s@));
    true
}

/// The bytes before the first NUL, or all of them.
pub open spec fn before_nul(bytes: Seq<u8>) -> Seq<u8> {
    bytes.take(crate::text::find(bytes, 0, 0u8))
}

/// The bytes before the first NUL, or all of them.
pub fn until_nul(bytes: &[u8]) -> (r: Vec<u8>)
    ensures
        r@ == before_nul(bytes@),
{
    let mut r: Vec<u8> = Vec::new();
    let mut i: usize = 0;
    while i < bytes.len() && bytes[i] != 0
        invariant
            i <= bytes.len(),
            r@ == bytes@.take(i as int),
            crate::text::find(bytes@, 0, 0u8) == crate::text::find(bytes@, i as int, 0u8),
        decreases bytes.len() - i,
    {
        r.push(bytes[i]);
        i += 1;
        assert(bytes@.take(i as int) == bytes@.take(i - 1).push(bytes@[i - 1]));
    }
    r
}

/// The bytes without the NULs at their end.
pub open spec fn without_end_nuls(bytes: Seq<u8>) -> Seq<u8>
    decreases bytes.len(),
{
    if bytes.len() > 0 && bytes.last() == 0 {
        without_end_nuls(bytes.drop_last())
    } else {
        bytes
    }
}

/// The text of a buffer that the kernel filled: without the NULs at its end,
/// and only if it is UTF-8.
pub fn kernel_text(buf: Vec<u8>) -> (r: Option<String>)
    ensures
        match r {
            Some(s) => valid_utf8(without_end_nuls(buf@)) && s@ == decode_utf8(
                without_end_nuls(buf@),
            ),
            None => !valid_utf8(without_end_nuls(buf@)),
        },
{
    let mut buf = buf;
    let ghost all = buf@;
    while buf.len() > 0 && buf[buf.len() - 1] == 0
        invariant
            without_end_nuls(all) == without_end_nuls(buf@),
        decreases buf.len(),
    {
        let _ = buf.pop();
    }
    match utf8_text(buf.as_slice()) {
        Ok(s) => {
            proof {
                encode_utf8_decode_utf8(s@);
            }
            Some(s.to_string())
        },
        Err(_) => None,
    }
}

/// What stands before the first NUL is kept, and what is behind it does not matter.
pub proof fn nuls_end_texts(text: Seq<u8>, rest: Seq<u8>)
    requires
        !text.contains(0u8),
    ensures
        before_nul(text + seq![0u8] + rest) == text,
        before_nul(text) == text,
{
    assert forall|k: int| 0 <= k < text.len() implies text[k] != 0 by {
        assert(text.contains(text[k]));
    }
    let s = text + seq![0u8] + rest;
    crate::text::lemma_find_is(s, 0, 0u8, text.len() as int);
    assert(s.take(text.len() as int) =~= text);
    crate::text::lemma_find_is(text, 0, 0u8, text.len() as int);
    assert(text.take(text.len() as int) =~= text);
}

/// NULs at the end go, as many as there are, and others stay.
pub proof fn end_nuls_are_dropped(bytes: Seq<u8>)
    ensures
        without_end_nuls(bytes.push(0)) == without_end_nuls(bytes),
        bytes.len() > 0 && bytes.last() != 0 ==> without_end_nuls(bytes) == bytes,
        without_end_nuls(Seq::empty()).len() == 0,
{
    assert(bytes.push(0).drop_last() =~= bytes);
}

} // verus!
