use vstd::prelude::*;

use vstd::utf8::encode_utf8;

use crate::codec::encode_value;
use crate::column::{column_types, types_of, Column};
use crate::data_type::DataType;
use crate::error::StorageError;
use crate::page::{Page, PAGE_INITIAL_FREE_SIZE, ROW_POINTER_SIZE};
use crate::row::{
    all_supported, decoded_rows, encode_row, encode_row_bytes,
    lemma_encode_error_persists, lemma_encoded_row, lemma_prefix_encodes, lemma_row_round_trip,
    row_round_trips, row_width,
};
use crate::value::{row_view, rows_view, ColumnValue, ValueView};

verus! {

broadcast use vstd::std_specs::vec::group_vec_axioms, vstd::seq::group_seq_axioms;

/// Most pages a table holds.
pub const MAX_PAGES: usize = 100;

/// The encoded rows of a table, page by page.
pub type PageRows = Seq<Seq<Seq<u8>>>;

/// Whether a page holding `rows` has room for `need` more bytes.
pub open spec fn page_fits(types: Seq<DataType>, rows: Seq<Seq<u8>>, need: int) -> bool {
    rows.len() * (row_width(types) + ROW_POINTER_SIZE) + need <= PAGE_INITIAL_FREE_SIZE
}

/// The first page, in pool order, with room for `need` bytes.
pub open spec fn first_fit(types: Seq<DataType>, pages: PageRows, need: int) -> Option<int>
    decreases pages.len(),
{
    if pages.len() == 0 {
        None
    } else {
        match first_fit(types, pages.drop_last(), need) {
            Some(i) => Some(i),
            None => if page_fits(types, pages.last(), need) {
                Some(pages.len() - 1)
            } else {
                None
            },
        }
    }
}

/// The rows of all pages, in page order and then in insertion order.
pub open spec fn all_rows(pages: PageRows) -> Seq<Seq<u8>>
    decreases pages.len(),
{
    if pages.len() == 0 {
        Seq::empty()
    } else {
        all_rows(pages.drop_last()) + pages.last()
    }
}

/// What iterating over a table yields.
pub open spec fn scan(types: Seq<DataType>, pages: PageRows) -> Seq<Seq<ValueView>> {
    decoded_rows(types, all_rows(pages))
}

/// Insertion into a table: the pages afterwards, and the outcome. The row is
/// encoded first; it then goes to the first page with room for it and its
/// directory entry, else to a new page while the pool is below its maximum.
pub open spec fn insert_rows(types: Seq<DataType>, pages: PageRows, row: Seq<ValueView>) -> (
    PageRows,
    Result<(), StorageError>,
) {
    match encode_row(types, row) {
        Err(e) => (pages, Err(e)),
        Ok(b) => {
            let need = b.len() + ROW_POINTER_SIZE;
            match first_fit(types, pages, need) {
                Some(i) => (pages.update(i, pages[i].push(b)), Ok(())),
                None => if pages.len() >= MAX_PAGES {
                    (pages, Err(StorageError::StorageFull))
                } else if need > PAGE_INITIAL_FREE_SIZE {
                    (pages, Err(StorageError::PageFull))
                } else {
                    (pages.push(seq![b]), Ok(()))
                },
            }
        },
    }
}

/// The shape that insertion keeps: rows of the schema's width, no page over
/// its capacity, every page but the last without room for one more row, and
/// every row one that the schema decodes.
pub open spec fn pages_valid(types: Seq<DataType>, pages: PageRows) -> bool {
    &&& pages.len() <= MAX_PAGES
    &&& forall|i: int|
        0 <= i < pages.len() ==> page_fits(types, #[trigger] pages[i], 0)
    &&& forall|i: int|
        0 <= i < pages.len() - 1 ==> !page_fits(
            types,
            #[trigger] pages[i],
            row_width(types) + ROW_POINTER_SIZE,
        )
    &&& forall|i: int, j: int|
        0 <= i < pages.len() && 0 <= j < pages[i].len() ==> (exists|vals: Seq<ValueView>|
            encode_row(types, vals) == Ok::<Seq<u8>, StorageError>(#[trigger] pages[i][j]))
}

proof fn lemma_first_fit_prefix(types: Seq<DataType>, pages: PageRows, need: int, i: int)
    requires
        0 <= i < pages.len(),
    ensures
        first_fit(types, pages.subrange(0, i + 1), need) == match first_fit(
            types,
            pages.subrange(0, i),
            need,
        ) {
            Some(j) => Some(j),
            None => if page_fits(types, pages[i], need) {
                Some(i)
            } else {
                None
            },
        },
{
    assert(pages.subrange(0, i + 1).drop_last() =~= pages.subrange(0, i));
}

/// What `first_fit` finds: a page with room before which none has room, or
/// no page with room at all.
proof fn lemma_first_fit(types: Seq<DataType>, pages: PageRows, need: int)
    ensures
        match first_fit(types, pages, need) {
            Some(i) => 0 <= i < pages.len() && page_fits(types, pages[i], need) && forall|j: int|
                0 <= j < i ==> !page_fits(types, #[trigger] pages[j], need),
            None => forall|j: int| 0 <= j < pages.len() ==> !page_fits(types, #[trigger] pages[j], need),
        },
    decreases pages.len(),
{
    if pages.len() > 0 {
        lemma_first_fit(types, pages.drop_last(), need);
        assert forall|j: int| 0 <= j < pages.len() - 1 implies pages.drop_last()[j] == pages[j] by {}
    }
}

proof fn lemma_decoded_rows_concat(types: Seq<DataType>, a: Seq<Seq<u8>>, b: Seq<Seq<u8>>)
    ensures
        decoded_rows(types, a + b) == decoded_rows(types, a) + decoded_rows(types, b),
{
    assert(decoded_rows(types, a + b) =~= decoded_rows(types, a) + decoded_rows(types, b));
}

proof fn lemma_all_rows_prefix(pages: PageRows, i: int)
    requires
        0 <= i < pages.len(),
    ensures
        all_rows(pages.subrange(0, i + 1)) == all_rows(pages.subrange(0, i)) + pages[i],
{
    assert(pages.subrange(0, i + 1).drop_last() =~= pages.subrange(0, i));
}

/// Under the shape that insertion keeps, a row that encodes goes to the last
/// page or to a new one, and the shape is kept.
proof fn lemma_insert_shape(types: Seq<DataType>, pages: PageRows, row: Seq<ValueView>)
    requires
        pages_valid(types, pages),
        encode_row(types, row) is Ok,
    ensures
        ({
            let b = encode_row(types, row)->Ok_0;
            let need = b.len() + ROW_POINTER_SIZE;
            &&& b.len() == row_width(types)
            &&& first_fit(types, pages, need) is Some ==> first_fit(types, pages, need)
                == Some(pages.len() - 1)
            &&& pages_valid(types, insert_rows(types, pages, row).0)
        }),
{
    let b = encode_row(types, row)->Ok_0;
    let need = b.len() + ROW_POINTER_SIZE;
    lemma_encoded_row(types, row);
    lemma_first_fit(types, pages, need);
    let after = insert_rows(types, pages, row).0;
    match first_fit(types, pages, need) {
        Some(i) => {
            assert(i == pages.len() - 1);
            assert forall|k: int| 0 <= k < after.len() implies page_fits(types, #[trigger] after[k], 0) by {
                if k == i {
                    let n = pages[k].len() as int;
                    let w = row_width(types) + ROW_POINTER_SIZE;
                    assert(after[k].len() == n + 1);
                    assert((n + 1) * w == n * w + w) by (nonlinear_arith);
                }
            }
            assert forall|k: int, j: int| 0 <= k < after.len() && 0 <= j < after[k].len() implies (exists|vals: Seq<ValueView>|
                encode_row(types, vals) == Ok::<Seq<u8>, StorageError>(#[trigger] after[k][j])) by {
                if k == i && j == pages[i].len() {
                    assert(encode_row(types, row) == Ok::<Seq<u8>, StorageError>(after[k][j]));
                } else {
                    assert(after[k][j] == pages[k][j]);
                }
            }
        },
        None => {
            if pages.len() < MAX_PAGES && need <= PAGE_INITIAL_FREE_SIZE {
                assert forall|k: int| 0 <= k < after.len() implies page_fits(types, #[trigger] after[k], 0) by {
                    if k < pages.len() {
                        assert(after[k] == pages[k]);
                    } else {
                        let w = row_width(types) + ROW_POINTER_SIZE;
                        assert(after[k].len() == 1);
                        assert(after[k].len() * w == w) by (nonlinear_arith)
                            requires
                                after[k].len() == 1,
                        ;
                    }
                }
                assert forall|k: int| 0 <= k < after.len() - 1 implies !page_fits(
                    types,
                    #[trigger] after[k],
                    row_width(types) + ROW_POINTER_SIZE,
                ) by {
                    assert(after[k] == pages[k]);
                }
                assert forall|k: int, j: int| 0 <= k < after.len() && 0 <= j < after[k].len() implies (exists|vals: Seq<ValueView>|
                    encode_row(types, vals) == Ok::<Seq<u8>, StorageError>(#[trigger] after[k][j])) by {
                    if k == pages.len() {
                        assert(encode_row(types, row) == Ok::<Seq<u8>, StorageError>(after[k][j]));
                    } else {
                        assert(after[k][j] == pages[k][j]);
                    }
                }
            }
        },
    }
}

proof fn lemma_all_rows_push(pages: PageRows, b: Seq<u8>)
    requires
        pages.len() > 0,
    ensures
        all_rows(pages.update(pages.len() - 1, pages.last().push(b))) == all_rows(pages).push(b),
        all_rows(pages.push(seq![b])) == all_rows(pages).push(b),
{
    let last = pages.len() - 1;
    let grown = pages.update(last, pages.last().push(b));
    assert(grown.drop_last() =~= pages.drop_last());
    assert(all_rows(grown) =~= all_rows(pages).push(b));
    assert(pages.push(seq![b]).drop_last() =~= pages);
    assert(all_rows(pages.push(seq![b])) =~= all_rows(pages).push(b));
}

/// An empty pool of pages has the shape that insertion keeps.
pub proof fn lemma_empty_valid(types: Seq<DataType>)
    ensures
        pages_valid(types, Seq::empty()),
        scan(types, Seq::empty()) == Seq::<Seq<ValueView>>::empty(),
{
    assert(scan(types, Seq::empty()) =~= Seq::<Seq<ValueView>>::empty());
}

/// A successful insert adds its row at the end of what iterating over the
/// table yields; the rows already there stay, in their order. Text that ends
/// in NUL comes back without it, so such rows are left out.
pub proof fn lemma_insert_appends(types: Seq<DataType>, pages: PageRows, row: Seq<ValueView>)
    requires
        pages_valid(types, pages),
        insert_rows(types, pages, row).1 is Ok,
        row_round_trips(row),
    ensures
        pages_valid(types, insert_rows(types, pages, row).0),
        scan(types, insert_rows(types, pages, row).0) == scan(types, pages).push(row),
{
    let b = encode_row(types, row)->Ok_0;
    let after = insert_rows(types, pages, row).0;
    lemma_insert_shape(types, pages, row);
    lemma_row_round_trip(types, row);
    if pages.len() == 0 {
        assert(after =~= seq![seq![b]]);
        assert(after.drop_last() =~= Seq::<Seq<Seq<u8>>>::empty());
        assert(all_rows(Seq::<Seq<Seq<u8>>>::empty()) =~= Seq::<Seq<u8>>::empty());
        assert(all_rows(after) =~= seq![b]);
        assert(all_rows(after) =~= all_rows(pages).push(b));
    } else {
        lemma_all_rows_push(pages, b);
    }
    assert(all_rows(after) == all_rows(pages).push(b));
    assert(decoded_rows(types, all_rows(pages).push(b)) =~= decoded_rows(types, all_rows(pages)).push(
        row,
    ));
}

/// Rows inserted one after another into a new table come back in that order.
/// Text that ends in NUL comes back without it, so such rows are left out.
pub proof fn lemma_rows_in_order(
    types: Seq<DataType>,
    r1: Seq<ValueView>,
    r2: Seq<ValueView>,
    r3: Seq<ValueView>,
)
    requires
        insert_rows(types, Seq::empty(), r1).1 is Ok,
        insert_rows(types, insert_rows(types, Seq::empty(), r1).0, r2).1 is Ok,
        insert_rows(types, insert_rows(types, insert_rows(types, Seq::empty(), r1).0, r2).0, r3).1 is Ok,
        row_round_trips(r1),
        row_round_trips(r2),
        row_round_trips(r3),
    ensures
        scan(
            types,
            insert_rows(types, insert_rows(types, insert_rows(types, Seq::empty(), r1).0, r2).0, r3).0,
        ) == seq![r1, r2, r3],
{
    let p0: PageRows = Seq::empty();
    let p1 = insert_rows(types, p0, r1).0;
    let p2 = insert_rows(types, p1, r2).0;
    lemma_empty_valid(types);
    lemma_insert_appends(types, p0, r1);
    lemma_insert_appends(types, p1, r2);
    lemma_insert_appends(types, p2, r3);
    assert(seq![r1, r2, r3] =~= Seq::<Seq<ValueView>>::empty().push(r1).push(r2).push(r3));
}

/// A row without one value per column is refused with `ArityMismatch`, and
/// the pages stay as they were.
pub proof fn lemma_arity_rejected(types: Seq<DataType>, pages: PageRows, row: Seq<ValueView>)
    requires
        row.len() != types.len(),
    ensures
        insert_rows(types, pages, row) == (pages, Err::<(), StorageError>(StorageError::ArityMismatch)),
{
}

/// Text longer than its column's width is refused with `ValueTooLarge`, and
/// the pages stay as they were, when the columns before it hold values that
/// fit.
pub proof fn lemma_overflow_rejected(
    types: Seq<DataType>,
    pages: PageRows,
    row: Seq<ValueView>,
    k: int,
)
    requires
        row.len() == types.len(),
        0 <= k < row.len(),
        forall|j: int| 0 <= j < k ==> encode_value(#[trigger] row[j], types[j]) is Ok,
        types[k] is String,
        types[k]->String_0 > 0,
        row[k] is Text,
        encode_utf8(row[k]->Text_0).len() > types[k]->String_0,
    ensures
        insert_rows(types, pages, row) == (pages, Err::<(), StorageError>(StorageError::ValueTooLarge)),
{
    lemma_prefix_encodes(types, row, k);
    let t1 = types.subrange(0, k + 1);
    let v1 = row.subrange(0, k + 1);
    assert(t1.drop_last() =~= types.subrange(0, k));
    assert(v1.drop_last() =~= row.subrange(0, k));
    lemma_encode_error_persists(types, row, k + 1);
}

/// A table: a schema and a bounded pool of pages holding its rows.
#[derive(Debug)]
pub struct Table {
    pub name: String,
    pub columns: Vec<Column>,
    pub pages: Vec<Page>,
}

impl Table {
    /// The column types of the schema.
    pub open spec fn schema(&self) -> Seq<DataType> {
        column_types(self.columns@)
    }

    /// The encoded rows, page by page.
    pub open spec fn page_rows(&self) -> PageRows {
        self.pages@.map_values(|p: Page| p.rows())
    }

    /// Each page is well formed over the table's schema, and together they
    /// keep the shape that insertion keeps.
    pub open spec fn wf(&self) -> bool {
        &&& forall|i: int|
            0 <= i < self.pages@.len() ==> {
                &&& (#[trigger] self.pages@[i]).wf()
                &&& self.pages@[i].schema@ == self.schema()
            }
        &&& pages_valid(self.schema(), self.page_rows())
    }

    /// An empty table over the given columns.
    pub fn new(name: String, columns: Vec<Column>) -> (r: Table)
        ensures
            r.wf(),
            r.name@ == name@,
            r.columns@ == columns@,
            r.page_rows() == Seq::<Seq<Seq<u8>>>::empty(),
    {
        let r = Table { name, columns, pages: Vec::new() };
        assert(r.page_rows() =~= Seq::<Seq<Seq<u8>>>::empty());
        r
    }

    /// Inserts one row, given as one value per column in schema order, into
    /// the first page with room for it, allocating a page when none has room
    /// and the pool is below `MAX_PAGES`. On failure nothing changes.
    pub fn insert(&mut self, row: &[ColumnValue]) -> (r: Result<(), StorageError>)
        requires
            old(self).wf(),
        ensures
            final(self).wf(),
            final(self).name == old(self).name,
            final(self).columns == old(self).columns,
            final(self).page_rows() == insert_rows(
                old(self).schema(),
                old(self).page_rows(),
                row_view(row@),
            ).0,
            r == insert_rows(old(self).schema(), old(self).page_rows(), row_view(row@)).1,
            r is Err ==> *final(self) == *old(self),
    {
        let types = types_of(self.columns.as_slice());
        let ghost rows = row_view(row@);
        let bytes = match encode_row_bytes(types.as_slice(), row) {
            Ok(b) => b,
            Err(e) => return Err(e),
        };
        let ghost b = bytes@;
        proof {
            lemma_encoded_row(types@, rows);
            lemma_insert_shape(types@, self.page_rows(), rows);
            lemma_first_fit(types@, self.page_rows(), b.len() + ROW_POINTER_SIZE);
        }
        if bytes.len() <= PAGE_INITIAL_FREE_SIZE - ROW_POINTER_SIZE {
            let need = bytes.len() + ROW_POINTER_SIZE;
            let mut i: usize = 0;
            while i < self.pages.len()
                invariant
                    self.wf(),
                    *self == *old(self),
                    i <= self.pages@.len(),
                    need == b.len() + ROW_POINTER_SIZE,
                    types@ == self.schema(),
                    bytes@ == b,
                    rows == row_view(row@),
                    b.len() == row_width(types@),
                    all_supported(types@),
                    encode_row(types@, rows) == Ok::<Seq<u8>, StorageError>(b),
                    forall|j: int| 0 <= j < i ==> !page_fits(types@, #[trigger] self.page_rows()[j], need as int),
                decreases self.pages@.len() - i,
            {
                proof {
                    let p = self.pages@[i as int];
                    assert(self.page_rows()[i as int] == p.rows());
                    assert(p.schema@ == types@);
                    assert(p.rows().len() == p.header.row_count);
                    assert(p.row_size() == row_width(types@));
                }
                if self.pages[i].header.free_space >= need {
                    let ghost before = self.page_rows();
                    self.pages[i].append_row(bytes);
                    proof {
                        assert(page_fits(types@, before[i as int], need as int));
                        lemma_first_fit(types@, before, need as int);
                        assert(first_fit(types@, before, need as int) == Some(i as int));
                        assert(self.page_rows() =~= before.update(i as int, before[i as int].push(b)));
                    }
                    return Ok(());
                }
                i = i + 1;
            }
        }
        if self.pages.len() >= MAX_PAGES {
            return Err(StorageError::StorageFull);
        }
        if bytes.len() > PAGE_INITIAL_FREE_SIZE - ROW_POINTER_SIZE {
            return Err(StorageError::PageFull);
        }
        let mut page = Page::new(self.columns.as_slice());
        page.append_row(bytes);
        let ghost before = self.page_rows();
        self.pages.push(page);
        proof {
            assert(page.rows() =~= seq![b]);
            assert(self.page_rows() =~= before.push(seq![b]));
        }
        Ok(())
    }

    /// All rows of the table, decoded: page by page in pool order, and within
    /// a page in insertion order.
    pub fn iter(&self) -> (r: Vec<Vec<ColumnValue>>)
        requires
            self.wf(),
        ensures
            rows_view(r@) == scan(self.schema(), self.page_rows()),
    {
        let mut out: Vec<Vec<ColumnValue>> = Vec::new();
        let mut i: usize = 0;
        assert(all_rows(self.page_rows().subrange(0, 0)) =~= Seq::<Seq<u8>>::empty());
        assert(rows_view(out@) =~= decoded_rows(self.schema(), Seq::<Seq<u8>>::empty()));
        while i < self.pages.len()
            invariant
                self.wf(),
                i <= self.pages@.len(),
                rows_view(out@) == decoded_rows(
                    self.schema(),
                    all_rows(self.page_rows().subrange(0, i as int)),
                ),
            decreases self.pages@.len() - i,
        {
            let mut rows = self.pages[i].iter();
            proof {
                lemma_all_rows_prefix(self.page_rows(), i as int);
                lemma_decoded_rows_concat(
                    self.schema(),
                    all_rows(self.page_rows().subrange(0, i as int)),
                    self.page_rows()[i as int],
                );
            }
            let ghost before = out@;
            let ghost added = rows@;
            out.append(&mut rows);
            assert(rows_view(out@) =~= rows_view(before) + rows_view(added));
            i = i + 1;
        }
        assert(self.page_rows().subrange(0, i as int) =~= self.page_rows());
        out
    }
}

} // verus!
