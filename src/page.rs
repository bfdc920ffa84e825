use vstd::prelude::*;

use crate::column::{column_types, types_of, Column};
use crate::data_type::DataType;
use crate::error::StorageError;
use crate::row::{
    all_supported, decode_row, decoded_rows, decode_row_values, encode_row, encode_row_bytes, lemma_decode_row_ok,
    lemma_encoded_row, row_width,
};
use crate::value::{row_view, rows_view, ColumnValue, ValueView};

verus! {

broadcast use vstd::std_specs::vec::group_vec_axioms, vstd::seq::group_seq_axioms;

/// Bytes in a page, header included.
pub const PAGE_SIZE: usize = 4096;

/// Bytes that the page header occupies: the size of `PageHeader`.
pub const PAGE_HEADER_SIZE: usize = 32;

/// Bytes left for rows and their directory in an empty page.
pub const PAGE_INITIAL_FREE_SIZE: usize = PAGE_SIZE - PAGE_HEADER_SIZE;

/// Bytes of one directory entry: a row's offset and length, two bytes each.
pub const ROW_POINTER_SIZE: usize = 4;

/// Flag bit: the page differs from any stored copy.
pub const PAGE_FLAG_DIRTY: u8 = 0b1000_0000;

/// Flag bit: the page holds no row.
pub const PAGE_FLAG_EMPTY: u8 = 0b0100_0000;

/// Flag bit: the page has no room left.
pub const PAGE_FLAG_FULL: u8 = 0b0010_0000;

/// The kind of content a page holds.
#[derive(Clone, Copy, Debug, PartialEq, Eq, Structural)]
pub enum PageType {
    /// Table rows.
    Data,
}

/// Advisory state bits of a page.
#[derive(Clone, Copy, Debug, PartialEq, Eq, Structural)]
pub struct PageFlags {
    pub bits: u8,
}

impl PageFlags {
    /// No flag set.
    pub fn empty() -> (r: PageFlags)
        ensures
            r.bits == 0,
    {
        PageFlags { bits: 0 }
    }

    /// Exactly the given bits set.
    pub fn from_bits(bits: u8) -> (r: PageFlags)
        ensures
            r.bits == bits,
    {
        PageFlags { bits }
    }
}

/// Bookkeeping at the start of a page.
#[derive(Clone, Copy, Debug)]
pub struct PageHeader {
    pub page_type: PageType,
    pub page_size: usize,
    pub row_count: usize,
    pub flags: PageFlags,
    pub free_space: usize,
}

/// A slotted page: a directory of `(offset, length)` entries into a data area
/// that holds the rows, encoded against the page's column types, back to back.
#[derive(Clone, Debug)]
pub struct Page {
    pub header: PageHeader,
    pub schema: Vec<DataType>,
    pub offsets: Vec<(u16, u16)>,
    pub data: Vec<u8>,
}

impl Page {
    /// Bytes of one row of this page.
    pub open spec fn row_size(&self) -> nat {
        row_width(self.schema@)
    }

    /// The bytes of row `i`.
    pub open spec fn row_bytes(&self, i: int) -> Seq<u8> {
        self.data@.subrange(i * self.row_size(), (i + 1) * self.row_size())
    }

    /// The encoded rows, in the order in which they were inserted.
    pub open spec fn rows(&self) -> Seq<Seq<u8>> {
        Seq::new(self.header.row_count as nat, |i: int| self.row_bytes(i))
    }

    /// The directory describes the data area, and free space is what the
    /// header and the rows with their entries leave of the page.
    pub open spec fn wf(&self) -> bool {
        &&& self.header.page_size == PAGE_SIZE
        &&& self.offsets@.len() == self.header.row_count
        &&& self.data@.len() == self.header.row_count * self.row_size()
        &&& self.header.free_space + self.header.row_count * (self.row_size() + ROW_POINTER_SIZE)
            == PAGE_INITIAL_FREE_SIZE
        &&& forall|i: int|
            0 <= i < self.header.row_count ==> #[trigger] self.offsets@[i] == (
                (i * self.row_size()) as u16,
                self.row_size() as u16,
            )
        &&& self.header.row_count > 0 ==> all_supported(self.schema@)
    }

    /// An empty page for rows of the given columns.
    pub fn new(columns: &[Column]) -> (r: Page)
        ensures
            r.wf(),
            r.schema@ == column_types(columns@),
            r.header.page_type == PageType::Data,
            r.header.page_size == PAGE_SIZE,
            r.header.row_count == 0,
            r.header.flags.bits == 0,
            r.header.free_space == PAGE_INITIAL_FREE_SIZE,
            r.rows().len() == 0,
    {
        Page {
            header: PageHeader {
                page_type: PageType::Data,
                page_size: PAGE_SIZE,
                row_count: 0,
                flags: PageFlags::empty(),
                free_space: PAGE_INITIAL_FREE_SIZE,
            },
            schema: types_of(columns),
            offsets: Vec::new(),
            data: Vec::new(),
        }
    }

    /// Appends the bytes of one encoded row and its directory entry.
    pub fn append_row(&mut self, bytes: Vec<u8>)
        requires
            old(self).wf(),
            all_supported(old(self).schema@),
            bytes@.len() == old(self).row_size(),
            old(self).header.free_space >= bytes@.len() + ROW_POINTER_SIZE,
        ensures
            final(self).wf(),
            final(self).schema == old(self).schema,
            final(self).rows() == old(self).rows().push(bytes@),
            final(self).header.row_count == old(self).header.row_count + 1,
            final(self).header == (PageHeader {
                row_count: (old(self).header.row_count + 1) as usize,
                free_space: (old(self).header.free_space - (bytes@.len() + ROW_POINTER_SIZE)) as usize,
                ..old(self).header
            }),
    {
        let ghost rs = self.row_size();
        let ghost old_rows = self.rows();
        let ghost n = self.header.row_count as int;
        let ghost b = bytes@;
        let size = bytes.len();
        let offset = self.data.len();
        proof {
            assert(n * rs <= PAGE_INITIAL_FREE_SIZE) by (nonlinear_arith)
                requires
                    self.header.free_space + n * (rs + ROW_POINTER_SIZE) == PAGE_INITIAL_FREE_SIZE,
                    n >= 0,
            ;
            assert((n + 1) * (rs + ROW_POINTER_SIZE) == n * (rs + ROW_POINTER_SIZE) + rs
                + ROW_POINTER_SIZE) by (nonlinear_arith);
            assert(n <= n * (rs + ROW_POINTER_SIZE)) by (nonlinear_arith)
                requires
                    n >= 0,
            ;
        }
        self.offsets.push((offset as u16, size as u16));
        let mut bytes = bytes;
        self.data.append(&mut bytes);
        self.header.row_count = self.header.row_count + 1;
        self.header.free_space = self.header.free_space - (size + ROW_POINTER_SIZE);
        proof {
            assert forall|i: int| 0 <= i < self.header.row_count implies #[trigger] self.offsets@[i]
                == ((i * self.row_size()) as u16, self.row_size() as u16) by {
                if i < n {
                    assert(old(self).offsets@[i] == ((i * rs) as u16, rs as u16));
                }
            }
            assert(self.data@.len() == self.header.row_count * rs) by (nonlinear_arith)
                requires
                    self.data@.len() == n * rs + rs,
                    self.header.row_count == n + 1,
            ;
            assert forall|i: int| 0 <= i < n implies #[trigger] self.row_bytes(i) == old_rows[i] by {
                let lo = i * rs;
                let hi = (i + 1) * rs;
                assert(hi <= n * rs) by (nonlinear_arith)
                    requires
                        i < n,
                        i >= 0,
                        hi == (i + 1) * rs,
                ;
                assert(0 <= lo <= hi) by (nonlinear_arith)
                    requires
                        i >= 0,
                        lo == i * rs,
                        hi == (i + 1) * rs,
                ;
                assert(self.data@.subrange(lo, hi) =~= old(self).data@.subrange(lo, hi));
            }
            assert((n + 1) * rs == n * rs + rs) by (nonlinear_arith);
            assert(self.row_bytes(n) =~= b);
            assert(self.rows() =~= old_rows.push(b));
        }
    }

    /// Inserts one row, given as one value per column in schema order. On
    /// failure nothing changes: the values are encoded before any byte is
    /// written, and the row needs its bytes and one directory entry free.
    pub fn insert(&mut self, row: &[ColumnValue]) -> (r: Result<(), StorageError>)
        requires
            old(self).wf(),
        ensures
            final(self).wf(),
            final(self).schema == old(self).schema,
            match encode_row(old(self).schema@, row_view(row@)) {
                Err(e) => r == Err::<(), StorageError>(e) && *final(self) == *old(self),
                Ok(b) => if old(self).header.free_space < b.len() + ROW_POINTER_SIZE {
                    r == Err::<(), StorageError>(StorageError::PageFull) && *final(self) == *old(self)
                } else {
                    &&& r == Ok::<(), StorageError>(())
                    &&& final(self).rows() == old(self).rows().push(b)
                    &&& final(self).header.row_count == old(self).header.row_count + 1
                    &&& final(self).header.free_space == old(self).header.free_space - (b.len()
                        + ROW_POINTER_SIZE)
                },
            },
    {
        let bytes = match encode_row_bytes(self.schema.as_slice(), row) {
            Ok(b) => b,
            Err(e) => return Err(e),
        };
        proof {
            lemma_encoded_row(self.schema@, row_view(row@));
        }
        if self.header.free_space < bytes.len() || self.header.free_space - bytes.len() < ROW_POINTER_SIZE {
            return Err(StorageError::PageFull);
        }
        self.append_row(bytes);
        Ok(())
    }

    /// The rows of the page, decoded, in the order in which they were inserted.
    pub fn iter(&self) -> (r: Vec<Vec<ColumnValue>>)
        requires
            self.wf(),
        ensures
            rows_view(r@) == decoded_rows(self.schema@, self.rows()),
    {
        let mut out: Vec<Vec<ColumnValue>> = Vec::new();
        let mut i: usize = 0;
        while i < self.offsets.len()
            invariant
                self.wf(),
                i <= self.header.row_count,
                out@.len() == i,
                forall|j: int|
                    0 <= j < i ==> decode_row(self.schema@, self.rows()[j])
                        == Ok::<Seq<ValueView>, StorageError>(row_view(#[trigger] out@[j]@)),
            decreases self.header.row_count - i,
        {
            let (offset, length) = self.offsets[i];
            let start = offset as usize;
            let end = start + length as usize;
            proof {
                let rs = self.row_size();
                assert((i + 1) * rs <= self.header.row_count * rs) by (nonlinear_arith)
                    requires
                        i < self.header.row_count,
                ;
                assert((i + 1) * rs == i * rs + rs) by (nonlinear_arith);
                assert(rs <= PAGE_INITIAL_FREE_SIZE) by (nonlinear_arith)
                    requires
                        self.header.free_space + self.header.row_count * (rs + ROW_POINTER_SIZE)
                            == PAGE_INITIAL_FREE_SIZE,
                        self.header.row_count >= 1,
                ;
                assert(self.header.row_count * rs <= PAGE_INITIAL_FREE_SIZE) by (nonlinear_arith)
                    requires
                        self.header.free_space + self.header.row_count * (rs + ROW_POINTER_SIZE)
                            == PAGE_INITIAL_FREE_SIZE,
                ;
                assert(0 <= i * rs) by (nonlinear_arith);
                lemma_decode_row_ok(self.schema@, self.row_bytes(i as int));
            }
            let values = match decode_row_values(self.schema.as_slice(), &self.data.as_slice()[start..end]) {
                Ok(values) => values,
                Err(_) => {
                    proof {
                        assert(false);
                    }
                    Vec::new()
                },
            };
            out.push(values);
            i = i + 1;
        }
        assert(rows_view(out@) =~= decoded_rows(self.schema@, self.rows()));
        out
    }

    /// Free space is the page size less the header and, for every row, its
    /// bytes and its directory entry.
    pub proof fn lemma_free_space(&self)
        requires
            self.wf(),
        ensures
            self.header.free_space == PAGE_SIZE - PAGE_HEADER_SIZE - self.header.row_count * (
            self.row_size() + ROW_POINTER_SIZE),
    {
    }

    /// Free bytes left for rows and directory entries.
    pub fn get_free_space(&self) -> (r: usize)
        ensures
            r == self.header.free_space,
    {
        self.header.free_space
    }

    /// Size of the page in bytes.
    pub fn get_page_size(&self) -> (r: usize)
        ensures
            r == self.header.page_size,
    {
        self.header.page_size
    }

    /// Number of rows stored.
    pub fn get_row_count(&self) -> (r: usize)
        ensures
            r == self.header.row_count,
    {
        self.header.row_count
    }
}

impl Default for Page {
    /// An empty page with no columns, marked dirty.
    fn default() -> (r: Page)
        ensures
            r.wf(),
            r.schema@.len() == 0,
            r.header.page_type == PageType::Data,
            r.header.page_size == PAGE_SIZE,
            r.header.row_count == 0,
            r.header.flags.bits == PAGE_FLAG_DIRTY,
            r.header.free_space == PAGE_INITIAL_FREE_SIZE,
    {
        Page {
            header: PageHeader {
                page_type: PageType::Data,
                page_size: PAGE_SIZE,
                row_count: 0,
                flags: PageFlags::from_bits(PAGE_FLAG_DIRTY),
                free_space: PAGE_INITIAL_FREE_SIZE,
            },
            schema: Vec::new(),
            offsets: Vec::new(),
            data: Vec::new(),
        }
    }
}

} // verus!
