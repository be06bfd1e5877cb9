use byteorder::{BigEndian as BeOrder, ByteOrder, LittleEndian as LeOrder};
use vstd::prelude::*;

verus! {

broadcast use vstd::seq::group_seq_axioms;

/// 256 to the power `k`.
pub open spec fn p256(k: nat) -> nat
    decreases k,
{
    if k == 0 {
        1
    } else {
        256 * p256((k - 1) as nat)
    }
}

/// The unsigned number that bytes denote, most significant byte first.
pub open spec fn be_value(s: Seq<u8>) -> nat
    decreases s.len(),
{
    if s.len() == 0 {
        0
    } else {
        be_value(s.drop_last()) * 256 + s.last() as nat
    }
}

/// The unsigned number that bytes denote, least significant byte first.
pub open spec fn le_value(s: Seq<u8>) -> nat
    decreases s.len(),
{
    if s.len() == 0 {
        0
    } else {
        le_value(s.drop_first()) * 256 + s.first() as nat
    }
}

/// The low `k` bytes of `n`, most significant first.
pub open spec fn be_bytes(n: nat, k: nat) -> Seq<u8>
    decreases k,
{
    if k == 0 {
        Seq::empty()
    } else {
        be_bytes(n / 256, (k - 1) as nat).push((n % 256) as u8)
    }
}

/// The low `k` bytes of `n`, least significant first.
pub open spec fn le_bytes(n: nat, k: nat) -> Seq<u8>
    decreases k,
{
    if k == 0 {
        Seq::empty()
    } else {
        seq![(n % 256) as u8] + le_bytes(n / 256, (k - 1) as nat)
    }
}

proof fn lemma_div_mod_256(a: nat, b: nat)
    requires
        b < 256,
    ensures
        (a * 256 + b) / 256 == a,
        (a * 256 + b) % 256 == b,
{
}

proof fn lemma_split_256(n: nat)
    ensures
        n == (n / 256) * 256 + n % 256,
        n % 256 < 256,
{
}

/// Writing `n < 256^k` in `k` big-endian bytes and reading them back gives `n`.
pub proof fn lemma_be_roundtrip(n: nat, k: nat)
    requires
        n < p256(k),
    ensures
        be_bytes(n, k).len() == k,
        be_value(be_bytes(n, k)) == n,
    decreases k,
{
    if k > 0 {
        lemma_split_256(n);
        assert(n / 256 < p256((k - 1) as nat)) by (nonlinear_arith)
            requires
                n < 256 * p256((k - 1) as nat),
                n == (n / 256) * 256 + n % 256,
                n % 256 < 256,
        ;
        lemma_be_roundtrip(n / 256, (k - 1) as nat);
        let s = be_bytes(n, k);
        assert(s.drop_last() =~= be_bytes(n / 256, (k - 1) as nat));
    }
}

/// Reading `k` big-endian bytes and writing the value back gives the same bytes.
pub proof fn lemma_be_value_bytes(s: Seq<u8>)
    ensures
        be_value(s) < p256(s.len()),
        be_bytes(be_value(s), s.len()) == s,
    decreases s.len(),
{
    if s.len() > 0 {
        let d = s.drop_last();
        lemma_be_value_bytes(d);
        lemma_div_mod_256(be_value(d), s.last() as nat);
        assert(be_value(s) < p256(s.len())) by (nonlinear_arith)
            requires
                be_value(s) == be_value(d) * 256 + s.last(),
                be_value(d) < p256(d.len()),
                s.last() < 256,
                p256(s.len()) == 256 * p256(d.len()),
        ;
        assert(be_bytes(be_value(s), s.len()) =~= s);
    }
}

/// Writing `n < 256^k` in `k` little-endian bytes and reading them back gives `n`.
pub proof fn lemma_le_roundtrip(n: nat, k: nat)
    requires
        n < p256(k),
    ensures
        le_bytes(n, k).len() == k,
        le_value(le_bytes(n, k)) == n,
    decreases k,
{
    if k > 0 {
        lemma_split_256(n);
        assert(n / 256 < p256((k - 1) as nat)) by (nonlinear_arith)
            requires
                n < 256 * p256((k - 1) as nat),
                n == (n / 256) * 256 + n % 256,
                n % 256 < 256,
        ;
        lemma_le_roundtrip(n / 256, (k - 1) as nat);
        let s = le_bytes(n, k);
        assert(s.drop_first() =~= le_bytes(n / 256, (k - 1) as nat));
    }
}

/// Reading `k` little-endian bytes and writing the value back gives the same bytes.
pub proof fn lemma_le_value_bytes(s: Seq<u8>)
    ensures
        le_value(s) < p256(s.len()),
        le_bytes(le_value(s), s.len()) == s,
    decreases s.len(),
{
    if s.len() > 0 {
        let d = s.drop_first();
        lemma_le_value_bytes(d);
        lemma_div_mod_256(le_value(d), s.first() as nat);
        assert(le_value(s) < p256(s.len())) by (nonlinear_arith)
            requires
                le_value(s) == le_value(d) * 256 + s.first(),
                le_value(d) < p256(d.len()),
                s.first() < 256,
                p256(s.len()) == 256 * p256(d.len()),
        ;
        assert(le_bytes(le_value(s), s.len()) =~= s);
    }
}

/// The powers of 256 for two, four and eight bytes.
pub proof fn lemma_p256_values()
    ensures
        p256(2) == 0x1_0000,
        p256(4) == 0x1_0000_0000,
        p256(8) == 0x1_0000_0000_0000_0000,
{
    reveal_with_fuel(p256, 9);
}

/// `byteorder::BigEndian::read_u16`: the first two bytes as a big-endian number.
#[verifier::external_body]
pub(crate) fn be_read_u16(buf: &[u8]) -> (r: u16)
    requires
        buf@.len() >= 2,
    ensures
        r as nat == be_value(buf@.subrange(0, 2)),
{
    BeOrder::read_u16(buf)
}

/// `byteorder::BigEndian::read_u32`: the first four bytes as a big-endian number.
#[verifier::external_body]
pub(crate) fn be_read_u32(buf: &[u8]) -> (r: u32)
    requires
        buf@.len() >= 4,
    ensures
        r as nat == be_value(buf@.subrange(0, 4)),
{
    BeOrder::read_u32(buf)
}

/// `byteorder::BigEndian::read_u64`: the first eight bytes as a big-endian number.
#[verifier::external_body]
pub(crate) fn be_read_u64(buf: &[u8]) -> (r: u64)
    requires
        buf@.len() >= 8,
    ensures
        r as nat == be_value(buf@.subrange(0, 8)),
{
    BeOrder::read_u64(buf)
}

/// `byteorder::LittleEndian::read_u16`: the first two bytes as a little-endian number.
#[verifier::external_body]
pub(crate) fn le_read_u16(buf: &[u8]) -> (r: u16)
    requires
        buf@.len() >= 2,
    ensures
        r as nat == le_value(buf@.subrange(0, 2)),
{
    LeOrder::read_u16(buf)
}

/// `byteorder::LittleEndian::read_u32`: the first four bytes as a little-endian number.
#[verifier::external_body]
pub(crate) fn le_read_u32(buf: &[u8]) -> (r: u32)
    requires
        buf@.len() >= 4,
    ensures
        r as nat == le_value(buf@.subrange(0, 4)),
{
    LeOrder::read_u32(buf)
}

/// `byteorder::LittleEndian::read_u64`: the first eight bytes as a little-endian number.
#[verifier::external_body]
pub(crate) fn le_read_u64(buf: &[u8]) -> (r: u64)
    requires
        buf@.len() >= 8,
    ensures
        r as nat == le_value(buf@.subrange(0, 8)),
{
    LeOrder::read_u64(buf)
}

/// `byteorder::BigEndian::write_u16` into a fresh two-byte buffer: the big-endian bytes of `n`.
#[verifier::external_body]
pub(crate) fn be_write_u16(n: u16) -> (r: [u8; 2])
    ensures
        r@ == be_bytes(n as nat, 2),
{
    let mut buf = [0u8; 2];
    BeOrder::write_u16(&mut buf, n);
    buf
}

/// `byteorder::BigEndian::write_u32` into a fresh four-byte buffer: the big-endian bytes of `n`.
#[verifier::external_body]
pub(crate) fn be_write_u32(n: u32) -> (r: [u8; 4])
    ensures
        r@ == be_bytes(n as nat, 4),
{
    let mut buf = [0u8; 4];
    BeOrder::write_u32(&mut buf, n);
    buf
}

/// `byteorder::BigEndian::write_u64` into a fresh eight-byte buffer: the big-endian bytes of `n`.
#[verifier::external_body]
pub(crate) fn be_write_u64(n: u64) -> (r: [u8; 8])
    ensures
        r@ == be_bytes(n as nat, 8),
{
    let mut buf = [0u8; 8];
    BeOrder::write_u64(&mut buf, n);
    buf
}

/// `byteorder::LittleEndian::write_u16` into a fresh two-byte buffer: the little-endian bytes of `n`.
#[verifier::external_body]
pub(crate) fn le_write_u16(n: u16) -> (r: [u8; 2])
    ensures
        r@ == le_bytes(n as nat, 2),
{
    let mut buf = [0u8; 2];
    LeOrder::write_u16(&mut buf, n);
    buf
}

/// `byteorder::LittleEndian::write_u32` into a fresh four-byte buffer: the little-endian bytes of `n`.
#[verifier::external_body]
pub(crate) fn le_write_u32(n: u32) -> (r: [u8; 4])
    ensures
        r@ == le_bytes(n as nat, 4),
{
    let mut buf = [0u8; 4];
    LeOrder::write_u32(&mut buf, n);
    buf
}

/// `byteorder::LittleEndian::write_u64` into a fresh eight-byte buffer: the little-endian bytes of `n`.
#[verifier::external_body]
pub(crate) fn le_write_u64(n: u64) -> (r: [u8; 8])
    ensures
        r@ == le_bytes(n as nat, 8),
{
    let mut buf = [0u8; 8];
    LeOrder::write_u64(&mut buf, n);
    buf
}

} // verus!
