//! Identities of media runs and transport sessions.
//!
//! An identity is the 16 bytes of a UUID, held as a plain byte array. The
//! `uuid` crate creates, parses and formats them.

use vstd::prelude::*;

verus! {

#[verifier::external_type_specification]
#[verifier::external_body]
pub struct ExUuidError(uuid::Error);

/// Appends the bytes of `src` to `out`.
pub fn append_bytes(out: &mut Vec<u8>, src: &[u8])
    ensures
        final(out)@ == old(out)@ + src@,
{
    let n = src.len();
    let mut i: usize = 0;
    while i < n
        invariant
            n == src@.len(),
            i <= n,
            out@ == old(out)@ + src@.subrange(0, i as int),
        decreases n - i,
    {
        out.push(src[i]);
        i = i + 1;
        assert(out@ =~= old(out)@ + src@.subrange(0, i as int));
    }
    assert(src@.subrange(0, n as int) =~= src@);
}

/// Whether two identities are the same.
pub fn same_id(a: &[u8; 16], b: &[u8; 16]) -> (r: bool)
    ensures
        r == (a@ == b@),
{
    let mut i: usize = 0;
    while i < 16
        invariant
            i <= 16,
            a@.len() == 16,
            b@.len() == 16,
            forall|j: int| 0 <= j < i ==> a@[j] == b@[j],
        decreases 16 - i,
    {
        if a[i] != b[i] {
            return false;
        }
        i = i + 1;
    }
    assert(a@ =~= b@);
    true
}

/// `uuid::Uuid::from_slice`: succeeds exactly on a 16-byte slice, and the
/// UUID it builds holds those 16 bytes.
#[verifier::external_body]
pub(crate) fn uuid_from_slice(bytes: &[u8]) -> (r: Result<[u8; 16], uuid::Error>)
    ensures
        r is Ok <==> bytes@.len() == 16,
        r matches Ok(id) ==> id@ == bytes@,
{
    uuid::Uuid::from_slice(bytes).map(|id| id.into_bytes())
}

/// `uuid::Uuid::new_v4`: a fresh random identity. Nothing is stated of its
/// bytes, which come from the random number generator.
#[verifier::external_body]
pub(crate) fn uuid_new_v4() -> [u8; 16] {
    uuid::Uuid::new_v4().into_bytes()
}

} // verus!
