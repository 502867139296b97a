//! Identities of files and modules.

use vstd::prelude::*;

verus! {

/// Identifies a file or module.
///
/// Two identities denote the same file exactly if their raw numbers are equal.
#[derive(Clone, Copy, Debug, PartialEq, Eq, Hash, Structural)]
pub struct FileId(u16);

impl FileId {
    /// The raw number behind this identity.
    pub closed spec fn raw(self) -> u16 {
        self.0
    }

    /// The identity with the given raw number.
    pub fn from_raw(v: u16) -> (id: Self)
        ensures
            id.raw() == v,
    {
        FileId(v)
    }

    /// Extracts the raw number.
    pub fn into_raw(self) -> (v: u16)
        ensures
            v == self.raw(),
    {
        self.0
    }

    /// An identity is determined by its raw number.
    pub proof fn lemma_raw_injective(a: FileId, b: FileId)
        requires
            a.raw() == b.raw(),
        ensures
            a == b,
    {
    }
}

} // verus!
