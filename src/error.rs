use vstd::prelude::*;

verus! {

/// Why an operation on the store was refused. A refused operation changes nothing.
#[derive(Clone, Copy, Debug, PartialEq, Eq, Structural)]
pub enum LibraryError {
    /// The owner's collection already holds a record with this key.
    DuplicateKey,
    /// The caller has no collection yet.
    CollectionNotFound,
    /// The caller's collection holds no record with this key.
    RecordNotFound,
    /// The chapter number is out of the record's range.
    InvalidChapter,
    /// An owner tried to follow itself.
    SelfFollow,
    /// The caller has never followed anyone.
    NoFollowList,
}

} // verus!
