use vstd::prelude::*;

verus! {

/// The storage type of a column. Every type has a fixed byte width, so each
/// column sits at a constant offset within a row.
#[derive(Clone, Copy, Debug, PartialEq, Eq, Structural)]
pub enum DataType {
    /// A byte string right-padded with zero bytes to exactly this many bytes.
    String(usize),
    /// A little-endian integer, two's complement when signed.
    Integer {
        /// Signed or unsigned.
        signed: bool,
        /// Width in bytes; one of 1, 2, 4 and 8 is supported.
        bytes: u8,
    },
}

impl DataType {
    /// Number of bytes a value of this type occupies in a row.
    pub open spec fn width(self) -> nat {
        match self {
            DataType::String(length) => length as nat,
            DataType::Integer { bytes, .. } => bytes as nat,
        }
    }

    /// Whether values of this type can be encoded and decoded at all.
    pub open spec fn supported(self) -> bool {
        match self {
            DataType::String(length) => length > 0,
            DataType::Integer { bytes, .. } => supported_int_width(bytes),
        }
    }

    /// The byte width of the type.
    pub fn get_fixed_length(&self) -> (r: usize)
        ensures
            r == self.width(),
    {
        match self {
            DataType::String(length) => *length,
            DataType::Integer { bytes, .. } => *bytes as usize,
        }
    }

    /// Whether the type can be encoded and decoded.
    pub fn is_supported(&self) -> (r: bool)
        ensures
            r == self.supported(),
    {
        match self {
            DataType::String(length) => *length > 0,
            DataType::Integer { bytes, .. } => *bytes == 1 || *bytes == 2 || *bytes == 4 || *bytes == 8,
        }
    }
}

/// Integer widths, in bytes, that the codec handles.
pub open spec fn supported_int_width(bytes: u8) -> bool {
    bytes == 1 || bytes == 2 || bytes == 4 || bytes == 8
}

} // verus!
