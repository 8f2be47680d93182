//! Content addresses.

use vstd::prelude::*;
use crate::outside::{sha256, sha256_digest};
use crate::text::{append_hex, hex};

verus! {

/// A content address: the SHA-256 digest of what it addresses.
#[derive(Debug, PartialEq, Eq, Hash)]
pub struct Cid {
    digest: Vec<u8>,
}

impl View for Cid {
    type V = Seq<u8>;

    closed spec fn view(&self) -> Seq<u8> {
        self.digest@
    }
}

/// The address of nothing: what stands for an optional address.
pub open spec fn optional_address(cid: Option<Cid>) -> Option<Seq<u8>> {
    match cid {
        Some(c) => Some(c@),
        None => None,
    }
}

impl Clone for Cid {
    fn clone(&self) -> (copy: Self)
        ensures
            copy@ == self@,
    {
        Cid { digest: copy_bytes(&self.digest) }
    }
}

/// A copy of a byte string.
pub fn copy_bytes(bytes: &Vec<u8>) -> (copy: Vec<u8>)
    ensures
        copy@ == bytes@,
{
    let mut copy: Vec<u8> = Vec::new();
    let mut i: usize = 0;
    while i < bytes.len()
        invariant
            i <= bytes.len(),
            copy@ == bytes@.take(i as int),
        decreases bytes.len() - i,
    {
        copy.push(bytes[i]);
        assert(bytes@.take(i as int + 1) =~= bytes@.take(i as int).push(bytes@[i as int]));
        i += 1;
    }
    assert(bytes@.take(bytes@.len() as int) =~= bytes@);
    copy
}

impl Cid {
    /// The address of `data`.
    pub fn new(data: &[u8]) -> (cid: Self)
        ensures
            cid@ == sha256_digest(data@),
    {
        Cid { digest: sha256(data) }
    }

    /// The digest itself.
    pub fn as_bytes(&self) -> (bytes: &Vec<u8>)
        ensures
            bytes@ == self@,
    {
        &self.digest
    }

    /// Whether two addresses are the same.
    pub fn same(&self, other: &Cid) -> (equal: bool)
        ensures
            equal == (self@ == other@),
    {
        if self.digest.len() != other.digest.len() {
            return false;
        }
        let mut i: usize = 0;
        while i < self.digest.len()
            invariant
                i <= self.digest.len(),
                self.digest.len() == other.digest.len(),
                forall|k: int| 0 <= k < i ==> self.digest@[k] == other.digest@[k],
            decreases self.digest.len() - i,
        {
            if self.digest[i] != other.digest[i] {
                return false;
            }
            i += 1;
        }
        assert(self.digest@ =~= other.digest@);
        true
    }

    /// The address in lower-case hexadecimal.
    pub fn to_hex(&self) -> (text: String)
        ensures
            text@ == hex(self@),
    {
        let mut text = String::new();
        append_hex(&mut text, &self.digest);
        assert(text@ =~= hex(self@));
        text
    }
}

/// Whether `previous` is the address `cid`.
pub fn names(previous: &Option<Cid>, cid: &Cid) -> (linked: bool)
    ensures
        linked == (optional_address(*previous) == Some(cid@)),
{
    match previous {
        Some(p) => p.same(cid),
        None => false,
    }
}

/// A copy of an optional address.
pub fn copy_optional(cid: &Option<Cid>) -> (copy: Option<Cid>)
    ensures
        optional_address(copy) == optional_address(*cid),
{
    match cid {
        Some(c) => Some(c.clone()),
        None => None,
    }
}

} // verus!
