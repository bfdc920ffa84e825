use vstd::prelude::*;

use crate::codec::{
    decode_value, encode_value, lemma_encoded_width, lemma_round_trip, no_trailing_nul,
};
use crate::data_type::DataType;
use crate::error::StorageError;
use crate::value::{row_view, ColumnValue, ValueView};

verus! {

broadcast use vstd::std_specs::vec::group_vec_axioms, vstd::seq::group_seq_axioms;

/// Bytes that a row of the given column types occupies.
pub open spec fn row_width(types: Seq<DataType>) -> nat
    decreases types.len(),
{
    if types.len() == 0 {
        0
    } else {
        row_width(types.drop_last()) + types.last().width()
    }
}

/// The encoding of a row: the encodings of its values, column after column.
/// The first column whose value cannot be encoded gives the error.
pub open spec fn encode_row(types: Seq<DataType>, vals: Seq<ValueView>) -> Result<
    Seq<u8>,
    StorageError,
>
    decreases types.len(),
{
    if types.len() != vals.len() {
        Err(StorageError::ArityMismatch)
    } else if types.len() == 0 {
        Ok(Seq::empty())
    } else {
        match encode_row(types.drop_last(), vals.drop_last()) {
            Err(e) => Err(e),
            Ok(front) => match encode_value(vals.last(), types.last()) {
                Err(e) => Err(e),
                Ok(b) => Ok(front + b),
            },
        }
    }
}

/// The values that the bytes of a row stand for, each column read from its
/// own offset.
pub open spec fn decode_row(types: Seq<DataType>, b: Seq<u8>) -> Result<
    Seq<ValueView>,
    StorageError,
>
    decreases types.len(),
{
    if types.len() == 0 {
        Ok(Seq::empty())
    } else {
        let split = b.len() - types.last().width();
        match decode_row(types.drop_last(), b.subrange(0, split)) {
            Err(e) => Err(e),
            Ok(front) => match decode_value(types.last(), b.subrange(split, b.len() as int)) {
                Err(e) => Err(e),
                Ok(v) => Ok(front.push(v)),
            },
        }
    }
}

/// The values of several encoded rows.
pub open spec fn decoded_rows(types: Seq<DataType>, rows: Seq<Seq<u8>>) -> Seq<Seq<ValueView>> {
    rows.map_values(|b: Seq<u8>| decode_row(types, b)->Ok_0)
}

/// Whether every column type of a schema can be encoded and decoded.
pub open spec fn all_supported(types: Seq<DataType>) -> bool {
    forall|i: int| 0 <= i < types.len() ==> #[trigger] types[i].supported()
}

/// Whether every value of a row comes back unchanged from its column.
pub open spec fn row_round_trips(vals: Seq<ValueView>) -> bool {
    forall|i: int| 0 <= i < vals.len() ==> no_trailing_nul(#[trigger] vals[i])
}

proof fn lemma_encode_value_supported(v: ValueView, t: DataType)
    requires
        encode_value(v, t) is Ok,
    ensures
        t.supported(),
{
}

/// A row that encodes takes exactly the schema's row width, and its column
/// types are all supported.
pub proof fn lemma_encoded_row(types: Seq<DataType>, vals: Seq<ValueView>)
    requires
        encode_row(types, vals) is Ok,
    ensures
        encode_row(types, vals)->Ok_0.len() == row_width(types),
        all_supported(types),
    decreases types.len(),
{
    if types.len() > 0 {
        lemma_encoded_row(types.drop_last(), vals.drop_last());
        lemma_encoded_width(vals.last(), types.last());
        lemma_encode_value_supported(vals.last(), types.last());
        assert forall|i: int| 0 <= i < types.len() implies #[trigger] types[i].supported() by {
            if i < types.len() - 1 {
                assert(types.drop_last()[i] == types[i]);
            }
        }
    }
}

/// Decoding the encoding of a row gives the row back, for every row that
/// fits its schema, text that ends in NUL aside.
pub proof fn lemma_row_round_trip(types: Seq<DataType>, vals: Seq<ValueView>)
    requires
        encode_row(types, vals) is Ok,
        row_round_trips(vals),
    ensures
        decode_row(types, encode_row(types, vals)->Ok_0) == Ok::<Seq<ValueView>, StorageError>(vals),
    decreases types.len(),
{
    if types.len() == 0 {
        assert(vals =~= Seq::<ValueView>::empty());
    } else {
        let front = encode_row(types.drop_last(), vals.drop_last())->Ok_0;
        let last = encode_value(vals.last(), types.last())->Ok_0;
        let b = front + last;
        lemma_encoded_row(types.drop_last(), vals.drop_last());
        lemma_encoded_width(vals.last(), types.last());
        assert(row_round_trips(vals.drop_last())) by {
            assert forall|i: int| 0 <= i < vals.drop_last().len() implies no_trailing_nul(
                #[trigger] vals.drop_last()[i],
            ) by {
                assert(vals.drop_last()[i] == vals[i]);
            }
        }
        assert(no_trailing_nul(vals[vals.len() - 1]));
        lemma_row_round_trip(types.drop_last(), vals.drop_last());
        lemma_round_trip(vals.last(), types.last());
        assert(b.subrange(0, front.len() as int) =~= front);
        assert(b.subrange(front.len() as int, b.len() as int) =~= last);
        assert(vals.drop_last().push(vals.last()) =~= vals);
    }
}

/// Decoding succeeds on a row of the right width when every column type is
/// supported.
pub proof fn lemma_decode_row_ok(types: Seq<DataType>, b: Seq<u8>)
    requires
        all_supported(types),
        b.len() == row_width(types),
    ensures
        decode_row(types, b) is Ok,
        decode_row(types, b)->Ok_0.len() == types.len(),
    decreases types.len(),
{
    if types.len() > 0 {
        let split = b.len() - types.last().width();
        assert(types.last().supported());
        assert(all_supported(types.drop_last())) by {
            assert forall|i: int| 0 <= i < types.drop_last().len() implies #[trigger] types.drop_last()[i].supported() by {
                assert(types.drop_last()[i] == types[i]);
            }
        }
        lemma_decode_row_ok(types.drop_last(), b.subrange(0, split));
    }
}

pub(crate) proof fn lemma_encode_error_persists(types: Seq<DataType>, vals: Seq<ValueView>, i: int)
    requires
        types.len() == vals.len(),
        0 <= i <= types.len(),
        encode_row(types.subrange(0, i), vals.subrange(0, i)) is Err,
    ensures
        encode_row(types, vals) == encode_row(types.subrange(0, i), vals.subrange(0, i)),
    decreases types.len() - i,
{
    if i == types.len() {
        assert(types.subrange(0, i) =~= types);
        assert(vals.subrange(0, i) =~= vals);
    } else {
        let t1 = types.subrange(0, i + 1);
        let v1 = vals.subrange(0, i + 1);
        assert(t1.drop_last() =~= types.subrange(0, i));
        assert(v1.drop_last() =~= vals.subrange(0, i));
        lemma_encode_error_persists(types, vals, i + 1);
    }
}

proof fn lemma_row_width_prefix(types: Seq<DataType>, k: int)
    requires
        0 < k <= types.len(),
    ensures
        row_width(types.subrange(0, k)) == row_width(types.subrange(0, k - 1)) + types[k - 1].width(),
        row_width(types.subrange(0, k)) <= row_width(types),
    decreases types.len() - k,
{
    assert(types.subrange(0, k).drop_last() =~= types.subrange(0, k - 1));
    if k == types.len() {
        assert(types.subrange(0, k) =~= types);
    } else {
        lemma_row_width_prefix(types, k + 1);
    }
}

proof fn lemma_decode_error_persists(types: Seq<DataType>, b: Seq<u8>, i: int)
    requires
        b.len() == row_width(types),
        0 < i <= types.len(),
        decode_row(types.subrange(0, i), b.subrange(0, row_width(types.subrange(0, i)) as int)) is Err,
    ensures
        decode_row(types, b) == decode_row(
            types.subrange(0, i),
            b.subrange(0, row_width(types.subrange(0, i)) as int),
        ),
    decreases types.len() - i,
{
    lemma_row_width_prefix(types, i);
    if i == types.len() {
        assert(types.subrange(0, i) =~= types);
        assert(b.subrange(0, b.len() as int) =~= b);
    } else {
        lemma_row_width_prefix(types, i + 1);
        let t1 = types.subrange(0, i + 1);
        let w0 = row_width(types.subrange(0, i));
        let w1 = row_width(t1);
        let b1 = b.subrange(0, w1 as int);
        assert(t1.drop_last() =~= types.subrange(0, i));
        assert(b1.subrange(0, w0 as int) =~= b.subrange(0, w0 as int));
        lemma_decode_error_persists(types, b, i + 1);
    }
}

/// A prefix of a row whose values each fit their columns encodes.
pub(crate) proof fn lemma_prefix_encodes(types: Seq<DataType>, vals: Seq<ValueView>, k: int)
    requires
        types.len() == vals.len(),
        0 <= k <= types.len(),
        forall|j: int| 0 <= j < k ==> encode_value(#[trigger] vals[j], types[j]) is Ok,
    ensures
        encode_row(types.subrange(0, k), vals.subrange(0, k)) is Ok,
    decreases k,
{
    if k > 0 {
        lemma_prefix_encodes(types, vals, k - 1);
        assert(types.subrange(0, k).drop_last() =~= types.subrange(0, k - 1));
        assert(vals.subrange(0, k).drop_last() =~= vals.subrange(0, k - 1));
        assert(encode_value(vals[k - 1], types[k - 1]) is Ok);
    }
}

/// Encodes a row against its column types.
pub fn encode_row_bytes(types: &[DataType], row: &[ColumnValue]) -> (r: Result<Vec<u8>, StorageError>)
    ensures
        match r {
            Ok(b) => encode_row(types@, row_view(row@)) == Ok::<Seq<u8>, StorageError>(b@),
            Err(e) => encode_row(types@, row_view(row@)) == Err::<Seq<u8>, StorageError>(e),
        },
{
    let ghost vals = row_view(row@);
    if types.len() != row.len() {
        return Err(StorageError::ArityMismatch);
    }
    let mut buf: Vec<u8> = Vec::new();
    let mut i: usize = 0;
    assert(types@.subrange(0, 0) =~= Seq::<DataType>::empty());
    while i < types.len()
        invariant
            types@.len() == row@.len() == vals.len(),
            vals == row_view(row@),
            i <= types@.len(),
            encode_row(types@.subrange(0, i as int), vals.subrange(0, i as int))
                == Ok::<Seq<u8>, StorageError>(buf@),
        decreases types@.len() - i,
    {
        let ghost t1 = types@.subrange(0, i + 1);
        let ghost v1 = vals.subrange(0, i + 1);
        assert(t1.drop_last() =~= types@.subrange(0, i as int));
        assert(v1.drop_last() =~= vals.subrange(0, i as int));
        assert(v1.last() == row@[i as int]@);
        match row[i].to_bytes(&types[i]) {
            Err(e) => {
                proof {
                    lemma_encode_error_persists(types@, vals, i + 1);
                }
                return Err(e);
            },
            Ok(mut b) => {
                buf.append(&mut b);
            },
        }
        i = i + 1;
    }
    assert(types@.subrange(0, i as int) =~= types@);
    assert(vals.subrange(0, i as int) =~= vals);
    Ok(buf)
}

/// Decodes the bytes of one row against its column types.
pub fn decode_row_values(types: &[DataType], bytes: &[u8]) -> (r: Result<Vec<ColumnValue>, StorageError>)
    requires
        bytes@.len() == row_width(types@),
    ensures
        match r {
            Ok(vs) => decode_row(types@, bytes@) == Ok::<Seq<ValueView>, StorageError>(row_view(vs@)),
            Err(e) => decode_row(types@, bytes@) == Err::<Seq<ValueView>, StorageError>(e),
        },
{
    let mut out: Vec<ColumnValue> = Vec::new();
    let mut i: usize = 0;
    let mut cursor: usize = 0;
    let total = bytes.len();
    assert(types@.subrange(0, 0) =~= Seq::<DataType>::empty());
    assert(row_view(out@) =~= Seq::<ValueView>::empty());
    while i < types.len()
        invariant
            bytes@.len() == row_width(types@),
            total == bytes@.len(),
            i <= types@.len(),
            cursor == row_width(types@.subrange(0, i as int)),
            cursor <= bytes@.len(),
            decode_row(types@.subrange(0, i as int), bytes@.subrange(0, cursor as int))
                == Ok::<Seq<ValueView>, StorageError>(row_view(out@)),
        decreases types@.len() - i,
    {
        let ghost t1 = types@.subrange(0, i + 1);
        assert(t1.drop_last() =~= types@.subrange(0, i as int));
        proof {
            lemma_row_width_prefix(types@, i + 1);
        }
        let width = types[i].get_fixed_length();
        let end = cursor + width;
        let ghost b1 = bytes@.subrange(0, end as int);
        assert(b1.subrange(0, cursor as int) =~= bytes@.subrange(0, cursor as int));
        assert(b1.subrange(cursor as int, end as int) =~= bytes@.subrange(cursor as int, end as int));
        match ColumnValue::from_bytes(&types[i], &bytes[cursor..end]) {
            Err(e) => {
                proof {
                    lemma_decode_error_persists(types@, bytes@, i + 1);
                }
                return Err(e);
            },
            Ok(v) => {
                let ghost before = out@;
                out.push(v);
                assert(row_view(out@) =~= row_view(before).push(v@));
            },
        }
        i = i + 1;
        cursor = end;
    }
    assert(types@.subrange(0, i as int) =~= types@);
    assert(bytes@.subrange(0, cursor as int) =~= bytes@);
    Ok(out)
}

} // verus!
