use vstd::prelude::*;

verus! {

/// Why an operation of the storage core failed.
#[derive(Clone, Copy, Debug, PartialEq, Eq, Structural)]
pub enum StorageError {
    /// A value was paired with a column type of another kind.
    TypeMismatch,
    /// A value does not fit in its column's fixed width.
    ValueTooLarge,
    /// The column type cannot be encoded: a zero-length string, or an integer
    /// width other than 1, 2, 4 or 8 bytes.
    UnsupportedEncoding,
    /// The page has too little free space for the row.
    PageFull,
    /// No page has room for the row and the table holds its maximum of pages.
    StorageFull,
    /// The row does not hold one value per column.
    ArityMismatch,
    /// Stored bytes could not be decoded.
    CorruptPage,
}

} // verus!
