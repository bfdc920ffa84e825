use vstd::prelude::*;
use vstd::utf8::{
    decode_utf8, encode_scalar, encode_utf8, encode_utf8_decode_utf8, encode_utf8_valid_utf8,
    has_width_1_encoding, valid_utf8,
};

use crate::data_type::{supported_int_width, DataType};
use crate::error::StorageError;
use crate::integer::{
    fits_signed, le_bytes, le_value, pow256, read_int, read_uint, signed_of, unsigned_of,
    write_int, write_uint,
};
use crate::value::{ColumnValue, ValueView};

verus! {

broadcast use vstd::std_specs::vec::group_vec_axioms, vstd::seq::group_seq_axioms;

/// `n` zero bytes.
pub open spec fn zeros(n: nat) -> Seq<u8> {
    Seq::new(n, |i: int| 0u8)
}

/// `b` without its trailing zero bytes.
pub open spec fn trim_nul(b: Seq<u8>) -> Seq<u8>
    decreases b.len(),
{
    if b.len() > 0 && b.last() == 0 {
        trim_nul(b.drop_last())
    } else {
        b
    }
}

/// What `String::from_utf8_lossy` makes of a byte string.
pub uninterp spec fn lossy_utf8(b: Seq<u8>) -> Seq<char>;

/// The text a byte string stands for: its UTF-8 decoding where it is valid
/// UTF-8, else the lossy decoding.
pub open spec fn text_of(b: Seq<u8>) -> Seq<char> {
    if valid_utf8(b) {
        decode_utf8(b)
    } else {
        lossy_utf8(b)
    }
}

/// The fixed-width encoding of a value against a column type.
pub open spec fn encode_value(v: ValueView, t: DataType) -> Result<Seq<u8>, StorageError> {
    match v {
        ValueView::Text(s) => match t {
            DataType::String(length) => {
                if length == 0 {
                    Err(StorageError::UnsupportedEncoding)
                } else if encode_utf8(s).len() > length {
                    Err(StorageError::ValueTooLarge)
                } else {
                    Ok(encode_utf8(s) + zeros((length - encode_utf8(s).len()) as nat))
                }
            },
            _ => Err(StorageError::TypeMismatch),
        },
        ValueView::Unsigned(n) => match t {
            DataType::Integer { signed: false, bytes } => {
                if !supported_int_width(bytes) {
                    Err(StorageError::UnsupportedEncoding)
                } else if n >= pow256(bytes as nat) {
                    Err(StorageError::ValueTooLarge)
                } else {
                    Ok(le_bytes(n as nat, bytes as nat))
                }
            },
            _ => Err(StorageError::TypeMismatch),
        },
        ValueView::Signed(n) => match t {
            DataType::Integer { signed: true, bytes } => {
                if !supported_int_width(bytes) {
                    Err(StorageError::UnsupportedEncoding)
                } else if !fits_signed(n as int, bytes as nat) {
                    Err(StorageError::ValueTooLarge)
                } else {
                    Ok(le_bytes(unsigned_of(n as int, bytes as nat), bytes as nat))
                }
            },
            _ => Err(StorageError::TypeMismatch),
        },
    }
}

/// The value that the bytes of one column stand for.
pub open spec fn decode_value(t: DataType, b: Seq<u8>) -> Result<ValueView, StorageError> {
    match t {
        DataType::String(length) => {
            if length == 0 {
                Err(StorageError::UnsupportedEncoding)
            } else {
                Ok(ValueView::Text(text_of(trim_nul(b))))
            }
        },
        DataType::Integer { signed, bytes } => {
            if !supported_int_width(bytes) {
                Err(StorageError::UnsupportedEncoding)
            } else if signed {
                Ok(ValueView::Signed(signed_of(le_value(b), bytes as nat) as i64))
            } else {
                Ok(ValueView::Unsigned(le_value(b) as u64))
            }
        },
    }
}

/// Whether a value comes back unchanged from a zero-padded column: text must
/// not end in a NUL character, which padding would swallow.
pub open spec fn no_trailing_nul(v: ValueView) -> bool {
    match v {
        ValueView::Text(s) => s.len() == 0 || s.last() != '\0',
        _ => true,
    }
}

proof fn lemma_trim_padding(a: Seq<u8>, k: nat)
    ensures
        trim_nul(a + zeros(k)) == trim_nul(a),
    decreases k,
{
    if k > 0 {
        let padded = a + zeros(k);
        assert(padded.drop_last() =~= a + zeros((k - 1) as nat));
        lemma_trim_padding(a, (k - 1) as nat);
    } else {
        assert(a + zeros(k) =~= a);
    }
}

proof fn lemma_scalar_ends_nonzero(c: u32)
    requires
        c != 0,
    ensures
        encode_scalar(c).len() > 0,
        encode_scalar(c).last() != 0,
{
    if has_width_1_encoding(c) {
        assert((c & 0x7F) as u8 != 0) by (bit_vector)
            requires
                c != 0 && c <= 0x7F,
        ;
    } else {
        assert(0x80 | (c & 0x3F) as u8 != 0) by (bit_vector);
    }
}

proof fn lemma_utf8_ends_nonzero(s: Seq<char>)
    requires
        s.len() > 0,
        s.last() != '\0',
    ensures
        encode_utf8(s).len() > 0,
        encode_utf8(s).last() != 0,
    decreases s.len(),
{
    let head = encode_scalar(s[0] as u32);
    let rest = s.drop_first();
    if s.len() == 1 {
        assert(s[0] as u32 != 0) by {
            vstd::utf8::char_u32_cast(s[0], s[0] as u32);
            vstd::utf8::char_u32_cast('\0', '\0' as u32);
        }
        lemma_scalar_ends_nonzero(s[0] as u32);
        assert(encode_utf8(rest) =~= Seq::<u8>::empty());
        assert(encode_utf8(s) =~= head);
    } else {
        assert(rest.last() == s.last());
        lemma_utf8_ends_nonzero(rest);
        let tail = encode_utf8(rest);
        assert(encode_utf8(s) == head + tail);
        assert((head + tail).last() == tail.last());
    }
}

/// Decoding the encoding of a value gives the value back, for every value
/// that fits its column type, text that ends in NUL aside.
pub proof fn lemma_round_trip(v: ValueView, t: DataType)
    requires
        encode_value(v, t) is Ok,
        no_trailing_nul(v),
    ensures
        decode_value(t, encode_value(v, t)->Ok_0) == Ok::<ValueView, StorageError>(v),
{
    crate::integer::lemma_pow256_values();
    let b = encode_value(v, t)->Ok_0;
    match v {
        ValueView::Text(s) => {
            let length = t->String_0;
            let e = encode_utf8(s);
            lemma_trim_padding(e, (length - e.len()) as nat);
            if s.len() > 0 {
                lemma_utf8_ends_nonzero(s);
            } else {
                assert(e =~= Seq::<u8>::empty());
            }
            assert(trim_nul(e) == e);
            encode_utf8_valid_utf8(s);
            encode_utf8_decode_utf8(s);
        },
        ValueView::Unsigned(n) => {
            let w = t->bytes as nat;
            crate::integer::lemma_le_round_trip(n as nat, w);
        },
        ValueView::Signed(n) => {
            let w = t->bytes as nat;
            crate::integer::lemma_signed_round_trip(n as int, w);
            crate::integer::lemma_le_round_trip(unsigned_of(n as int, w), w);
        },
    }
}

/// Every successful encoding is exactly as long as the column type's width.
pub proof fn lemma_encoded_width(v: ValueView, t: DataType)
    requires
        encode_value(v, t) is Ok,
    ensures
        encode_value(v, t)->Ok_0.len() == t.width(),
{
    match v {
        ValueView::Text(s) => {},
        ValueView::Unsigned(n) => {
            crate::integer::lemma_le_bytes_len(n as nat, t->bytes as nat);
        },
        ValueView::Signed(n) => {
            crate::integer::lemma_le_bytes_len(unsigned_of(n as int, t->bytes as nat), t->bytes as nat);
        },
    }
}

/// Relies on `String::from_utf8_lossy`: it replaces invalid sequences, and a
/// valid UTF-8 byte string comes back as the text it encodes.
#[verifier::external_body]
fn utf8_lossy(b: &[u8]) -> (r: String)
    ensures
        r@ == lossy_utf8(b@),
        valid_utf8(b@) ==> r@ == decode_utf8(b@),
{
    String::from_utf8_lossy(b).into_owned()
}

/// `2^(8 * bytes)` for the widths below eight bytes.
fn int_capacity(bytes: u8) -> (r: u64)
    requires
        bytes == 1 || bytes == 2 || bytes == 4,
    ensures
        r == pow256(bytes as nat),
{
    proof {
        crate::integer::lemma_pow256_values();
    }
    if bytes == 1 {
        0x100
    } else if bytes == 2 {
        0x1_0000
    } else {
        0x1_0000_0000
    }
}

impl ColumnValue {
    /// Encodes the value into exactly `column_type.get_fixed_length()` bytes.
    pub fn to_bytes(&self, column_type: &DataType) -> (r: Result<Vec<u8>, StorageError>)
        ensures
            match r {
                Ok(b) => encode_value(self@, *column_type) == Ok::<Seq<u8>, StorageError>(b@),
                Err(e) => encode_value(self@, *column_type) == Err::<Seq<u8>, StorageError>(e),
            },
            r is Ok ==> r->Ok_0@.len() == column_type.width(),
    {
        proof {
            crate::integer::lemma_pow256_values();
        }
        match (self, column_type) {
            (ColumnValue::StringLiteral(s), DataType::String(length)) => {
                let length = *length;
                if length == 0 {
                    return Err(StorageError::UnsupportedEncoding);
                }
                let text = s.as_str().as_bytes();
                if text.len() > length {
                    return Err(StorageError::ValueTooLarge);
                }
                let mut buf: Vec<u8> = Vec::new();
                let mut i: usize = 0;
                while i < text.len()
                    invariant
                        i <= text@.len(),
                        buf@ == text@.subrange(0, i as int),
                    decreases text@.len() - i,
                {
                    buf.push(text[i]);
                    i = i + 1;
                }
                while buf.len() < length
                    invariant
                        text@.len() <= buf@.len() <= length,
                        buf@ == text@ + zeros((buf@.len() - text@.len()) as nat),
                    decreases length - buf@.len(),
                {
                    buf.push(0u8);
                    assert(buf@ =~= text@ + zeros((buf@.len() - text@.len()) as nat));
                }
                assert(text@ == encode_utf8(s@));
                Ok(buf)
            },
            (ColumnValue::UnsignedInteger(n), DataType::Integer { signed: false, bytes }) => {
                let bytes = *bytes;
                if !(bytes == 1 || bytes == 2 || bytes == 4 || bytes == 8) {
                    return Err(StorageError::UnsupportedEncoding);
                }
                if bytes != 8 && *n >= int_capacity(bytes) {
                    return Err(StorageError::ValueTooLarge);
                }
                let buf = write_uint(*n, bytes as usize);
                proof {
                    crate::integer::lemma_le_bytes_len(*n as nat, bytes as nat);
                }
                Ok(buf)
            },
            (ColumnValue::SignedInteger(n), DataType::Integer { signed: true, bytes }) => {
                let bytes = *bytes;
                if !(bytes == 1 || bytes == 2 || bytes == 4 || bytes == 8) {
                    return Err(StorageError::UnsupportedEncoding);
                }
                if bytes != 8 {
                    let half = (int_capacity(bytes) / 2) as i64;
                    if *n < -half || *n >= half {
                        return Err(StorageError::ValueTooLarge);
                    }
                }
                let buf = write_int(*n, bytes as usize);
                proof {
                    crate::integer::lemma_le_bytes_len(unsigned_of(*n as int, bytes as nat), bytes as nat);
                }
                Ok(buf)
            },
            _ => Err(StorageError::TypeMismatch),
        }
    }

    /// Decodes one column's bytes, which are exactly as many as its width.
    /// Text is read without its zero padding.
    pub fn from_bytes(column_type: &DataType, bytes: &[u8]) -> (r: Result<ColumnValue, StorageError>)
        requires
            bytes@.len() == column_type.width(),
        ensures
            match r {
                Ok(v) => decode_value(*column_type, bytes@) == Ok::<ValueView, StorageError>(v@),
                Err(e) => decode_value(*column_type, bytes@) == Err::<ValueView, StorageError>(e),
            },
    {
        match column_type {
            DataType::String(length) => {
                if *length == 0 {
                    return Err(StorageError::UnsupportedEncoding);
                }
                let mut end: usize = bytes.len();
                assert(bytes@.subrange(0, end as int) =~= bytes@);
                while end > 0 && bytes[end - 1] == 0
                    invariant
                        end <= bytes@.len(),
                        trim_nul(bytes@) == trim_nul(bytes@.subrange(0, end as int)),
                    decreases end,
                {
                    assert(bytes@.subrange(0, end as int).drop_last() =~= bytes@.subrange(0, end - 1));
                    end = end - 1;
                }
                assert(trim_nul(bytes@.subrange(0, end as int)) == bytes@.subrange(0, end as int));
                let text = utf8_lossy(&bytes[0..end]);
                Ok(ColumnValue::StringLiteral(text))
            },
            DataType::Integer { signed, bytes: width } => {
                let width = *width;
                if !(width == 1 || width == 2 || width == 4 || width == 8) {
                    return Err(StorageError::UnsupportedEncoding);
                }
                assert(bytes@.subrange(0, width as int) =~= bytes@);
                if *signed {
                    Ok(ColumnValue::SignedInteger(read_int(bytes, width as usize)))
                } else {
                    Ok(ColumnValue::UnsignedInteger(read_uint(bytes, width as usize)))
                }
            },
        }
    }
}

} // verus!
