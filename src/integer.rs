use byteorder::{ByteOrder, LittleEndian};
use vstd::prelude::*;

verus! {

/// `256` raised to the power `w`: the number of values that `w` bytes hold.
pub open spec fn pow256(w: nat) -> nat
    decreases w,
{
    if w == 0 {
        1
    } else {
        256 * pow256((w - 1) as nat)
    }
}

/// The `w` low-order bytes of `n`, least significant first.
pub open spec fn le_bytes(n: nat, w: nat) -> Seq<u8>
    decreases w,
{
    if w == 0 {
        seq![]
    } else {
        seq![(n % 256) as u8] + le_bytes(n / 256, (w - 1) as nat)
    }
}

/// The unsigned number that little-endian bytes stand for.
pub open spec fn le_value(b: Seq<u8>) -> nat
    decreases b.len(),
{
    if b.len() == 0 {
        0
    } else {
        b[0] as nat + 256 * le_value(b.drop_first())
    }
}

/// The signed number that an unsigned `w`-byte pattern stands for in two's
/// complement.
pub open spec fn signed_of(u: nat, w: nat) -> int {
    if u < pow256(w) / 2 {
        u as int
    } else {
        u - pow256(w)
    }
}

/// The `w`-byte two's complement pattern of `n`, as an unsigned number.
pub open spec fn unsigned_of(n: int, w: nat) -> nat {
    (n % (pow256(w) as int)) as nat
}

/// Whether `n` has a `w`-byte two's complement form.
pub open spec fn fits_signed(n: int, w: nat) -> bool {
    -(pow256(w) / 2) <= n < pow256(w) / 2
}

pub proof fn lemma_pow256_positive(w: nat)
    ensures
        pow256(w) > 0,
    decreases w,
{
    if w > 0 {
        lemma_pow256_positive((w - 1) as nat);
    }
}

pub proof fn lemma_pow256_values()
    ensures
        pow256(1) == 0x100,
        pow256(2) == 0x1_0000,
        pow256(4) == 0x1_0000_0000,
        pow256(8) == 0x1_0000_0000_0000_0000,
{
    reveal_with_fuel(pow256, 9);
}

pub proof fn lemma_le_bytes_len(n: nat, w: nat)
    ensures
        le_bytes(n, w).len() == w,
    decreases w,
{
    if w > 0 {
        lemma_le_bytes_len(n / 256, (w - 1) as nat);
    }
}

/// Reading back the bytes of a number that fits gives the number.
pub proof fn lemma_le_round_trip(n: nat, w: nat)
    requires
        n < pow256(w),
    ensures
        le_value(le_bytes(n, w)) == n,
    decreases w,
{
    if w > 0 {
        let rest = le_bytes(n / 256, (w - 1) as nat);
        let p = pow256((w - 1) as nat);
        assert(n / 256 < p) by (nonlinear_arith)
            requires
                n < 256 * p,
        ;
        lemma_le_round_trip(n / 256, (w - 1) as nat);
        assert(le_bytes(n, w).drop_first() =~= rest);
        assert(n == n % 256 + 256 * (n / 256)) by (nonlinear_arith);
    }
}

/// A value that fits in `w` bytes survives the trip through two's complement.
pub proof fn lemma_signed_round_trip(n: int, w: nat)
    requires
        w >= 1,
        fits_signed(n, w),
    ensures
        signed_of(unsigned_of(n, w), w) == n,
        unsigned_of(n, w) < pow256(w),
{
    let p = pow256(w) as int;
    assert(p % 2 == 0 && p >= 2) by {
        reveal_with_fuel(pow256, 2);
        lemma_pow256_positive((w - 1) as nat);
    }
    if n >= 0 {
        assert(n % p == n) by (nonlinear_arith)
            requires
                0 <= n < p,
        ;
    } else {
        assert(n % p == n + p) by (nonlinear_arith)
            requires
                -p <= n < 0,
        ;
    }
}

/// Relies on byteorder's `LittleEndian::write_uint`: it writes the `nbytes` low
/// bytes of `n`, least significant first, and panics unless `n` fits in them.
#[verifier::external_body]
pub(crate) fn write_uint(n: u64, nbytes: usize) -> (r: Vec<u8>)
    requires
        1 <= nbytes <= 8,
        n < pow256(nbytes as nat),
    ensures
        r@ == le_bytes(n as nat, nbytes as nat),
{
    let mut buf = vec![0u8; nbytes];
    LittleEndian::write_uint(&mut buf, n, nbytes);
    buf
}

/// Relies on byteorder's `LittleEndian::write_int`: it writes the `nbytes` low
/// bytes of the two's complement form of `n`, least significant first.
#[verifier::external_body]
pub(crate) fn write_int(n: i64, nbytes: usize) -> (r: Vec<u8>)
    requires
        1 <= nbytes <= 8,
    ensures
        r@ == le_bytes(unsigned_of(n as int, nbytes as nat), nbytes as nat),
{
    let mut buf = vec![0u8; nbytes];
    LittleEndian::write_int(&mut buf, n, nbytes);
    buf
}

/// Relies on byteorder's `LittleEndian::read_uint`: the unsigned number held
/// by the first `nbytes` bytes, least significant first.
#[verifier::external_body]
pub(crate) fn read_uint(buf: &[u8], nbytes: usize) -> (r: u64)
    requires
        1 <= nbytes <= 8,
        nbytes <= buf@.len(),
    ensures
        r as nat == le_value(buf@.subrange(0, nbytes as int)),
{
    LittleEndian::read_uint(buf, nbytes)
}

/// Relies on byteorder's `LittleEndian::read_int`: the two's complement number
/// held by the first `nbytes` bytes, least significant first.
#[verifier::external_body]
pub(crate) fn read_int(buf: &[u8], nbytes: usize) -> (r: i64)
    requires
        1 <= nbytes <= 8,
        nbytes <= buf@.len(),
    ensures
        r as int == signed_of(le_value(buf@.subrange(0, nbytes as int)), nbytes as nat),
{
    LittleEndian::read_int(buf, nbytes)
}

} // verus!
