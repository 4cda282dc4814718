//! Byte strings: the names and attribute values of the markup.

use vstd::prelude::*;
use vstd::string::is_ascii_spec_bytes;
use vstd::utf8::valid_utf8;

verus! {

/// The bytes of an ASCII text.
pub open spec fn ascii_bytes(text: Seq<char>) -> Seq<u8> {
    Seq::new(text.len(), |i: int| text[i] as u8)
}

/// `std::str::from_utf8` of std, asked only whether it succeeds: it does so
/// on the byte sequences that are valid UTF-8.
#[verifier::external_body]
pub(crate) fn is_utf8(bytes: &[u8]) -> (ok: bool)
    ensures
        ok == valid_utf8(bytes@),
{
    std::str::from_utf8(bytes).is_ok()
}

/// Whether two byte strings are the same.
pub fn bytes_eq(a: &[u8], b: &[u8]) -> (same: bool)
    ensures
        same == (a@ == b@),
{
    if a.len() != b.len() {
        return false;
    }
    let mut i: usize = 0;
    while i < a.len()
        invariant
            a@.len() == b@.len(),
            i <= a@.len(),
            a@.take(i as int) == b@.take(i as int),
        decreases a@.len() - i,
    {
        if a[i] != b[i] {
            return false;
        }
        i += 1;
        assert(a@.take(i as int) =~= a@.take(i - 1).push(a@[i - 1]));
        assert(b@.take(i as int) =~= b@.take(i - 1).push(b@[i - 1]));
    }
    assert(a@.take(a@.len() as int) =~= a@);
    assert(b@.take(b@.len() as int) =~= b@);
    true
}

/// Whether a name of the markup is the ASCII text `tag`.
pub(crate) fn is_named(name: &[u8], tag: &str) -> (same: bool)
    requires
        tag.is_ascii(),
    ensures
        same == (name@ == ascii_bytes(tag@)),
{
    proof {
        is_ascii_spec_bytes(tag);
    }
    bytes_eq(name, tag.as_bytes())
}

} // verus!
