//! Byte strings.
use vstd::prelude::*;
use vstd::utf8::{decode_utf8, valid_utf8};
use crate::text::text_of;

verus! {

/// Compares two byte strings. Strings of one length are read to the end,
/// whatever they hold.
pub fn constant_time_eq(a: &[u8], b: &[u8]) -> (r: bool)
    ensures
        r == (a@ == b@),
{
    if a.len() != b.len() {
        return false;
    }
    let mut differences: u8 = 0;
    let mut i: usize = 0;
    while i < a.len()
        invariant
            a.len() == b.len(),
            i <= a.len(),
            differences == 0 <==> forall|k: int| 0 <= k < i ==> a@[k] == b@[k],
        decreases a.len() - i,
    {
        let x = a[i];
        let y = b[i];
        let seen = differences;
        assert((seen | (x ^ y)) == 0 <==> seen == 0 && x == y) by (bit_vector);
        differences = differences | (x ^ y);
        i = i + 1;
    }
    assert(differences == 0 <==> a@ =~= b@);
    differences == 0
}

/// A copy of a part of a byte string.
pub fn copy_range(a: &[u8], from: usize, to: usize) -> (r: Vec<u8>)
    requires
        from <= to <= a@.len(),
    ensures
        r@ == a@.subrange(from as int, to as int),
{
    let mut out: Vec<u8> = Vec::new();
    let mut i: usize = from;
    while i < to
        invariant
            from <= i <= to <= a@.len(),
            out@ == a@.subrange(from as int, i as int),
        decreases to - i,
    {
        out.push(a[i]);
        assert(out@ =~= a@.subrange(from as int, i + 1));
        i = i + 1;
    }
    out
}

/// The text that bytes in UTF-8 are.
pub open spec fn utf8_of(bytes: Seq<u8>) -> Option<Seq<char>> {
    if valid_utf8(bytes) {
        Some(decode_utf8(bytes))
    } else {
        None
    }
}

/// `String::from_utf8`: the text, where the bytes are valid UTF-8.
#[verifier::external_body]
pub(crate) fn utf8_text(bytes: Vec<u8>) -> (r: Option<String>)
    ensures
        text_of(r) == utf8_of(bytes@),
{
    String::from_utf8(bytes).ok()
}

} // verus!
