//! Lists of bytes.
use vstd::prelude::*;

verus! {

/// The bytes of a list that may be missing.
pub open spec fn optional_bytes(bytes: Option<Vec<u8>>) -> Option<Seq<u8>> {
    match bytes {
        Some(bytes) => Some(bytes@),
        None => None,
    }
}

/// A second copy of a list of bytes.
pub fn copy_bytes(bytes: &[u8]) -> (copy: Vec<u8>)
    ensures
        copy@ == bytes@,
{
    let mut copy: Vec<u8> = Vec::new();
    for i in 0..bytes.len()
        invariant
            copy@ == bytes@.take(i as int),
    {
        copy.push(bytes[i]);
        assert(copy@ =~= bytes@.take(i + 1));
    }
    assert(copy@ =~= bytes@);
    copy
}

/// A second copy of a list of bytes that may be missing.
pub fn copy_optional_bytes(bytes: &Option<Vec<u8>>) -> (copy: Option<Vec<u8>>)
    ensures
        optional_bytes(copy) == optional_bytes(*bytes),
{
    match bytes {
        Some(bytes) => Some(copy_bytes(bytes.as_slice())),
        None => None,
    }
}

/// Whether two lists of bytes are equal.
pub fn same_bytes(left: &[u8], right: &[u8]) -> (same: bool)
    ensures
        same == (left@ == right@),
{
    if left.len() != right.len() {
        return false;
    }
    for i in 0..left.len()
        invariant
            left@.len() == right@.len(),
            forall|j: int| 0 <= j < i ==> left@[j] == right@[j],
    {
        if left[i] != right[i] {
            return false;
        }
    }
    assert(left@ =~= right@);
    true
}

/// The first 32 bytes of a list that holds exactly that many.
pub fn fixed_32(bytes: &Vec<u8>) -> (fixed: Option<[u8; 32]>)
    ensures
        fixed is Some <==> bytes@.len() == 32,
        fixed is Some ==> fixed->0@ == bytes@,
{
    if bytes.len() != 32 {
        return None;
    }
    let mut fixed: [u8; 32] = [0u8; 32];
    for i in 0..32usize
        invariant
            bytes@.len() == 32,
            fixed@.len() == 32,
            forall|j: int| 0 <= j < i ==> fixed@[j] == bytes@[j],
    {
        fixed[i] = bytes[i];
    }
    assert(fixed@ =~= bytes@);
    Some(fixed)
}

} // verus!
