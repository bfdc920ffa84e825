use vstd::prelude::*;

use crate::error::StorageError;
use crate::storage::BabylonStorage;
use crate::data_type::DataType;
use crate::table::{insert_rows, PageRows};
use crate::value::{row_view, rows_view, ColumnValue, ValueView};

verus! {

broadcast use vstd::std_specs::vec::group_vec_axioms, vstd::seq::group_seq_axioms;

/// The two statements of the command language.
#[derive(Clone, Copy, Debug, PartialEq, Eq, Structural)]
pub enum StatementType {
    Insert,
    Select,
}

impl StatementType {
    /// The statement named by a command word: `insert` or `select`.
    pub fn from_command(word: &str) -> (r: Option<StatementType>)
        ensures
            word@ == "insert"@ ==> r == Some(StatementType::Insert),
            word@ == "select"@ ==> r == Some(StatementType::Select),
            word@ != "insert"@ && word@ != "select"@ ==> r is None,
    {
        let w = word.to_owned();
        let insert = "insert".to_owned();
        let select = "select".to_owned();
        proof {
            reveal_strlit("insert");
            reveal_strlit("select");
            assert("insert"@[0] != "select"@[0]);
        }
        if w == insert {
            Some(StatementType::Insert)
        } else if w == select {
            Some(StatementType::Select)
        } else {
            None
        }
    }
}

/// A statement with the rows it inserts.
#[derive(Debug)]
pub struct Statement {
    pub stmt_type: StatementType,
    pub new_rows: Vec<Vec<ColumnValue>>,
}

/// The pieces of `s` between single spaces, in order; `s` without a space
/// is one piece.
pub open spec fn words(s: Seq<char>) -> Seq<Seq<char>>
    decreases s.len(),
{
    if s.len() == 0 {
        seq![Seq::empty()]
    } else {
        let front = words(s.drop_last());
        if s.last() == ' ' {
            front.push(Seq::empty())
        } else {
            front.update(front.len() - 1, front.last().push(s.last()))
        }
    }
}

/// The value of a string of ASCII decimal digits.
pub open spec fn digits_value(d: Seq<char>) -> nat
    decreases d.len(),
{
    if d.len() == 0 {
        0
    } else {
        digits_value(d.drop_last()) * 10 + ((d.last() as u32) - ('0' as u32)) as nat
    }
}

/// The unsigned number that `s` writes in decimal: an optional `+`, then one
/// or more ASCII digits, with a value below `2^64`.
pub open spec fn decimal_u64(s: Seq<char>) -> Option<u64> {
    let d = if s.len() > 0 && s[0] == '+' {
        s.drop_first()
    } else {
        s
    };
    if d.len() > 0 && (forall|i: int| 0 <= i < d.len() ==> '0' <= #[trigger] d[i] <= '9')
        && digits_value(d) <= u64::MAX {
        Some(digits_value(d) as u64)
    } else {
        None
    }
}

/// How a word of input becomes a value: a number when it is one, else text.
pub open spec fn word_value(w: Seq<char>) -> ValueView {
    match decimal_u64(w) {
        Some(n) => ValueView::Unsigned(n),
        None => ValueView::Text(w),
    }
}

/// Relies on `str::split` with a space as separator, collected into owned
/// strings.
#[verifier::external_body]
fn split_words(s: &str) -> (r: Vec<String>)
    ensures
        r@.map_values(|w: String| w@) == words(s@),
{
    s.split(' ').map(|w| w.to_owned()).collect()
}

/// Relies on `str::parse::<u64>`, whose grammar is an optional `+` and then
/// decimal digits, and which fails on overflow.
#[verifier::external_body]
fn parse_u64(s: &str) -> (r: Option<u64>)
    ensures
        r == decimal_u64(s@),
{
    s.parse::<u64>().ok()
}

/// Turns a line of input into a statement of the given type with one row:
/// one value per space-separated word, a number where the word is one and
/// text otherwise.
pub fn prepare_statement(stmt_type: StatementType, input: &str) -> (r: Result<Statement, StorageError>)
    ensures
        r is Ok,
        r->Ok_0.stmt_type == stmt_type,
        rows_view(r->Ok_0.new_rows@) == seq![words(input@).map_values(|w: Seq<char>| word_value(w))],
{
    let pieces = split_words(input);
    let ghost ws = words(input@);
    let mut row: Vec<ColumnValue> = Vec::new();
    let mut i: usize = 0;
    while i < pieces.len()
        invariant
            i <= pieces@.len(),
            pieces@.map_values(|w: String| w@) == ws,
            row_view(row@) == ws.subrange(0, i as int).map_values(|w: Seq<char>| word_value(w)),
        decreases pieces@.len() - i,
    {
        let piece = &pieces[i];
        assert(piece@ == ws[i as int]);
        let value = match parse_u64(piece.as_str()) {
            Some(n) => ColumnValue::UnsignedInteger(n),
            None => ColumnValue::StringLiteral(piece.clone()),
        };
        assert(value@ == word_value(ws[i as int]));
        let ghost before = row@;
        let ghost v = value@;
        row.push(value);
        assert(row_view(row@) =~= row_view(before).push(v));
        assert(ws.subrange(0, i + 1) =~= ws.subrange(0, i as int).push(ws[i as int]));
        i = i + 1;
        assert(row_view(row@) =~= ws.subrange(0, i as int).map_values(|w: Seq<char>| word_value(w)));
    }
    assert(ws.subrange(0, i as int) =~= ws);
    let new_rows = vec![row];
    assert(rows_view(new_rows@) =~= seq![ws.map_values(|w: Seq<char>| word_value(w))]);
    Ok(Statement { stmt_type, new_rows })
}

/// Inserting rows one after another, stopping at the first that fails: the
/// pages afterwards and the outcome.
pub open spec fn insert_all(types: Seq<DataType>, pages: PageRows, rows: Seq<Seq<ValueView>>) -> (
    PageRows,
    Result<(), StorageError>,
)
    decreases rows.len(),
{
    if rows.len() == 0 {
        (pages, Ok(()))
    } else {
        let front = insert_all(types, pages, rows.drop_last());
        if front.1 is Err {
            front
        } else {
            insert_rows(types, front.0, rows.last())
        }
    }
}

impl Statement {
    /// Applies the statement's writes to the engine: an insert stores its
    /// rows in order and stops at the first that fails; a select writes
    /// nothing.
    pub fn apply(&self, storage: &mut BabylonStorage) -> (r: Result<(), StorageError>)
        requires
            old(storage).wf(),
        ensures
            final(storage).wf(),
            final(storage).main_table().columns == old(storage).main_table().columns,
            self.stmt_type == StatementType::Select ==> r is Ok && *final(storage) == *old(storage),
            self.stmt_type == StatementType::Insert ==> {
                let outcome = insert_all(
                    old(storage).main_table().schema(),
                    old(storage).main_table().page_rows(),
                    rows_view(self.new_rows@),
                );
                &&& final(storage).main_table().page_rows() == outcome.0
                &&& r == outcome.1
            },
    {
        if self.stmt_type == StatementType::Select {
            return Ok(());
        }
        let ghost types = storage.main_table().schema();
        let ghost start = storage.main_table().page_rows();
        let ghost all = rows_view(self.new_rows@);
        let mut i: usize = 0;
        while i < self.new_rows.len()
            invariant
                storage.wf(),
                self.stmt_type == StatementType::Insert,
                i <= self.new_rows@.len(),
                all == rows_view(self.new_rows@),
                storage.main_table().columns == old(storage).main_table().columns,
                types == storage.main_table().schema(),
                types == old(storage).main_table().schema(),
                start == old(storage).main_table().page_rows(),
                insert_all(types, start, all.subrange(0, i as int)) == (
                    storage.main_table().page_rows(),
                    Ok::<(), StorageError>(()),
                ),
            decreases self.new_rows@.len() - i,
        {
            let ghost prefix = all.subrange(0, i + 1);
            assert(prefix.drop_last() =~= all.subrange(0, i as int));
            assert(prefix.last() == row_view(self.new_rows@[i as int]@));
            let r = storage.insert(self.new_rows[i].as_slice());
            if r.is_err() {
                proof {
                    lemma_insert_all_stops(types, start, all, i + 1);
                }
                return r;
            }
            i = i + 1;
        }
        assert(all.subrange(0, i as int) =~= all);
        Ok(())
    }
}

proof fn lemma_insert_all_stops(
    types: Seq<DataType>,
    pages: PageRows,
    rows: Seq<Seq<ValueView>>,
    i: int,
)
    requires
        0 < i <= rows.len(),
        insert_all(types, pages, rows.subrange(0, i)).1 is Err,
    ensures
        insert_all(types, pages, rows) == insert_all(types, pages, rows.subrange(0, i)),
    decreases rows.len() - i,
{
    if i == rows.len() {
        assert(rows.subrange(0, i) =~= rows);
    } else {
        assert(rows.subrange(0, i + 1).drop_last() =~= rows.subrange(0, i));
        lemma_insert_all_stops(types, pages, rows, i + 1);
    }
}

} // verus!
