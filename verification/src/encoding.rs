use crate::endian::{
    be_bytes, be_read_u16, be_read_u32, be_read_u64, be_value, be_write_u16, be_write_u32,
    be_write_u64, le_bytes, le_read_u16, le_read_u32, le_read_u64, le_value, le_write_u16,
    le_write_u32, le_write_u64, p256,
};
use crate::error::{Error, IoErrorKind, Result};
use crate::reader::ByteReader;
use vstd::prelude::*;

verus! {

broadcast use vstd::seq::group_seq_axioms;

/// The three wire layouts of NBT.
#[derive(Debug, Clone, Copy, PartialEq, Eq, Structural)]
pub enum EncodingKind {
    BigEndian,
    LittleEndian,
    NetworkLittleEndian,
}

impl EncodingKind {
    /// Whether this is the network layout, with varint lengths and integers.
    pub fn is_network(self) -> (r: bool)
        ensures
            r == (self == EncodingKind::NetworkLittleEndian),
    {
        match self {
            EncodingKind::NetworkLittleEndian => true,
            _ => false,
        }
    }
}

/// A type-level name for one of the wire layouts.
pub trait Encoding {
    spec fn spec_kind() -> EncodingKind;

    fn kind() -> (k: EncodingKind)
        ensures
            k == Self::spec_kind(),
    ;
}

/// Java edition layout: fixed-width big-endian numbers.
#[derive(Debug, Clone, Copy, Default)]
pub struct BigEndian;

/// Bedrock file layout: fixed-width little-endian numbers.
#[derive(Debug, Clone, Copy, Default)]
pub struct LittleEndian;

/// Bedrock network layout: little-endian, with variable-length ints, longs and lengths.
#[derive(Debug, Clone, Copy, Default)]
pub struct NetworkLittleEndian;

impl Encoding for BigEndian {
    open spec fn spec_kind() -> EncodingKind {
        EncodingKind::BigEndian
    }

    fn kind() -> (k: EncodingKind) {
        EncodingKind::BigEndian
    }
}

impl Encoding for LittleEndian {
    open spec fn spec_kind() -> EncodingKind {
        EncodingKind::LittleEndian
    }

    fn kind() -> (k: EncodingKind) {
        EncodingKind::LittleEndian
    }
}

impl Encoding for NetworkLittleEndian {
    open spec fn spec_kind() -> EncodingKind {
        EncodingKind::NetworkLittleEndian
    }

    fn kind() -> (k: EncodingKind) {
        EncodingKind::NetworkLittleEndian
    }
}

/// The outcome of reading at a position: the value and the position after it, or
/// the error and the position up to which input was consumed.
pub type Step<T> = std::result::Result<(T, usize), (Error, usize)>;

/// The input ended: an end-of-file error at the end of `s`.
pub open spec fn eof_at<T>(s: Seq<u8>) -> Step<T> {
    Err((Error::Io(IoErrorKind::UnexpectedEof), s.len() as usize))
}

/// Taking `k` bytes at `p`.
pub open spec fn sp_take(s: Seq<u8>, p: usize, k: usize) -> Step<Seq<u8>> {
    if p + k <= s.len() {
        Ok((s.subrange(p as int, p + k), (p + k) as usize))
    } else {
        eof_at(s)
    }
}

/// The number that fixed-width bytes denote in a layout (the network layout is little-endian).
pub open spec fn fixed_value(enc: EncodingKind, b: Seq<u8>) -> nat {
    if enc == EncodingKind::BigEndian {
        be_value(b)
    } else {
        le_value(b)
    }
}

/// The fixed-width bytes of a number in a layout.
pub open spec fn fixed_bytes(enc: EncodingKind, n: nat, k: nat) -> Seq<u8> {
    if enc == EncodingKind::BigEndian {
        be_bytes(n, k)
    } else {
        le_bytes(n, k)
    }
}

/// Reading a `k`-byte unsigned number at `p` in the layout of `enc`.
pub open spec fn sp_fixed(enc: EncodingKind, s: Seq<u8>, p: usize, k: usize) -> Step<nat> {
    match sp_take(s, p, k) {
        Ok((b, q)) => Ok((fixed_value(enc, b), q)),
        Err(e) => Err(e),
    }
}

/// Reading a `u16` at `p`.
pub open spec fn sp_u16(enc: EncodingKind, s: Seq<u8>, p: usize) -> Step<u16> {
    match sp_fixed(enc, s, p, 2) {
        Ok((v, q)) => Ok((v as u16, q)),
        Err(e) => Err(e),
    }
}

/// Reading a `u32` at `p`.
pub open spec fn sp_u32(enc: EncodingKind, s: Seq<u8>, p: usize) -> Step<u32> {
    match sp_fixed(enc, s, p, 4) {
        Ok((v, q)) => Ok((v as u32, q)),
        Err(e) => Err(e),
    }
}

/// Reading a `u64` at `p`.
pub open spec fn sp_u64(enc: EncodingKind, s: Seq<u8>, p: usize) -> Step<u64> {
    match sp_fixed(enc, s, p, 8) {
        Ok((v, q)) => Ok((v as u64, q)),
        Err(e) => Err(e),
    }
}

/// 128 to the power `i`.
pub open spec fn p128(i: nat) -> nat
    decreases i,
{
    if i == 0 {
        1
    } else {
        128 * p128((i - 1) as nat)
    }
}

/// Decoding an unsigned LEB128 number of at most five bytes, from its `i`-th byte on,
/// with `acc` the value of the bytes before.
pub open spec fn sp_var_u32_from(s: Seq<u8>, p: usize, i: nat, acc: nat) -> Step<u32>
    decreases 5 - i,
{
    if i >= 5 {
        Err((Error::InvalidVarint { detail: "failed to decode u32 varint" }, (p + i) as usize))
    } else if p + i >= s.len() {
        Err((Error::InvalidVarint { detail: "truncated u32 varint" }, s.len() as usize))
    } else {
        let b = s[p + i];
        let acc2 = acc + (b % 128) as nat * p128(i);
        if b < 128 {
            Ok(((acc2 % 0x1_0000_0000) as u32, (p + i + 1) as usize))
        } else if i == 4 {
            Err((Error::InvalidVarint { detail: "u32 varint exceeds 5 bytes" }, (p + i + 1) as usize))
        } else {
            sp_var_u32_from(s, p, i + 1, acc2)
        }
    }
}

/// Reading an unsigned LEB128 varint of at most five bytes at `p`.
pub open spec fn sp_var_u32(s: Seq<u8>, p: usize) -> Step<u32> {
    sp_var_u32_from(s, p, 0, 0)
}

/// Decoding an unsigned LEB128 number of at most ten bytes whose value fits 64 bits.
pub open spec fn sp_var_u64_from(s: Seq<u8>, p: usize, i: nat, acc: nat) -> Step<u64>
    decreases 10 - i,
{
    if i >= 10 {
        Err((Error::InvalidVarint { detail: "failed to decode u64 varint" }, (p + i) as usize))
    } else if p + i >= s.len() {
        Err((Error::InvalidVarint { detail: "truncated u64 varint" }, s.len() as usize))
    } else {
        let b = s[p + i];
        if i == 9 && b >= 128 {
            Err((Error::InvalidVarint { detail: "u64 varint exceeds 10 bytes" }, (p + i + 1) as usize))
        } else if i == 9 && b > 1 {
            Err(
                (
                    Error::InvalidVarint { detail: "u64 varint terminal byte overflow" },
                    (p + i + 1) as usize,
                ),
            )
        } else {
            let acc2 = acc + (b % 128) as nat * p128(i);
            if b < 128 {
                Ok((acc2 as u64, (p + i + 1) as usize))
            } else {
                sp_var_u64_from(s, p, i + 1, acc2)
            }
        }
    }
}

/// Reading an unsigned LEB128 varint of at most ten bytes at `p`.
pub open spec fn sp_var_u64(s: Seq<u8>, p: usize) -> Step<u64> {
    sp_var_u64_from(s, p, 0, 0)
}

/// The LEB128 bytes of `n`: seven bits per byte, low bits first, the high bit set on
/// every byte but the last.
pub open spec fn var_bytes(n: nat) -> Seq<u8>
    decreases n,
{
    if n < 128 {
        seq![n as u8]
    } else {
        seq![(n % 128 + 128) as u8] + var_bytes(n / 128)
    }
}

/// Zigzag: 0, -1, 1, -2, ... to 0, 1, 2, 3, ...
pub open spec fn zigzag(v: int) -> nat {
    if v >= 0 {
        (2 * v) as nat
    } else {
        (-2 * v - 1) as nat
    }
}

/// The inverse of zigzag: 0, 1, 2, 3, ... to 0, -1, 1, -2, ...
pub open spec fn unzigzag(u: nat) -> int {
    if u % 2 == 0 {
        (u / 2) as int
    } else {
        -((u / 2) as int) - 1
    }
}

/// Zigzag encoding and decoding undo each other.
pub proof fn lemma_zigzag_bijective(v: int, u: nat)
    ensures
        unzigzag(zigzag(v)) == v,
        zigzag(unzigzag(u)) == u,
{
}

/// Maps an `i32` to the `u32` that zigzag gives it.
pub fn encode_zigzag_i32(value: i32) -> (r: u32)
    ensures
        r as nat == zigzag(value as int),
{
    if value >= 0 {
        (value as u32) * 2
    } else {
        ((-(value as i64)) * 2 - 1) as u32
    }
}

/// Maps a `u32` back to the `i32` whose zigzag it is.
pub fn decode_zigzag_i32(value: u32) -> (r: i32)
    ensures
        r as int == unzigzag(value as nat),
{
    if value % 2 == 0 {
        (value / 2) as i32
    } else {
        (-((value / 2) as i64) - 1) as i32
    }
}

/// Maps an `i64` to the `u64` that zigzag gives it.
pub fn encode_zigzag_i64(value: i64) -> (r: u64)
    ensures
        r as nat == zigzag(value as int),
{
    if value >= 0 {
        (value as u64) * 2
    } else {
        ((-((value + 1) as i128)) * 2 + 1) as u64
    }
}

/// Maps a `u64` back to the `i64` whose zigzag it is.
pub fn decode_zigzag_i64(value: u64) -> (r: i64)
    ensures
        r as int == unzigzag(value as nat),
{
    if value % 2 == 0 {
        (value / 2) as i64
    } else {
        (-((value / 2) as i128) - 1) as i64
    }
}


/// Reading an `i16` at `p`.
pub open spec fn sp_i16(enc: EncodingKind, s: Seq<u8>, p: usize) -> Step<i16> {
    match sp_u16(enc, s, p) {
        Ok((v, q)) => Ok((v as i16, q)),
        Err(e) => Err(e),
    }
}

/// Reading an `i32` at `p`: fixed width, or a zigzag varint on the network.
pub open spec fn sp_i32(enc: EncodingKind, s: Seq<u8>, p: usize) -> Step<i32> {
    if enc == EncodingKind::NetworkLittleEndian {
        match sp_var_u32(s, p) {
            Ok((v, q)) => Ok((unzigzag(v as nat) as i32, q)),
            Err(e) => Err(e),
        }
    } else {
        match sp_u32(enc, s, p) {
            Ok((v, q)) => Ok((v as i32, q)),
            Err(e) => Err(e),
        }
    }
}

/// Reading an `i64` at `p`: fixed width, or a zigzag varint on the network.
pub open spec fn sp_i64(enc: EncodingKind, s: Seq<u8>, p: usize) -> Step<i64> {
    if enc == EncodingKind::NetworkLittleEndian {
        match sp_var_u64(s, p) {
            Ok((v, q)) => Ok((unzigzag(v as nat) as i64, q)),
            Err(e) => Err(e),
        }
    } else {
        match sp_u64(enc, s, p) {
            Ok((v, q)) => Ok((v as i64, q)),
            Err(e) => Err(e),
        }
    }
}

/// Reading a string length prefix at `p`.
pub open spec fn sp_string_len(enc: EncodingKind, s: Seq<u8>, p: usize) -> Step<usize> {
    if enc == EncodingKind::NetworkLittleEndian {
        match sp_var_u32(s, p) {
            Ok((v, q)) => if v > 0x7fff_ffff {
                Err(
                    (
                        Error::LengthOverflow {
                            field: "string_length",
                            max: 0x7fff_ffff,
                            actual: v as usize,
                        },
                        q,
                    ),
                )
            } else {
                Ok((v as usize, q))
            },
            Err(e) => Err(e),
        }
    } else {
        match sp_u16(enc, s, p) {
            Ok((v, q)) => Ok((v as usize, q)),
            Err(e) => Err(e),
        }
    }
}

/// Reading a list length prefix at `p`; a negative length is refused.
pub open spec fn sp_list_len(enc: EncodingKind, s: Seq<u8>, p: usize) -> Step<usize> {
    if enc == EncodingKind::NetworkLittleEndian {
        match sp_var_u32(s, p) {
            Ok((v, q)) => if v > 0x7fff_ffff {
                Err(
                    (
                        Error::LengthOverflow {
                            field: "list_length",
                            max: 0x7fff_ffff,
                            actual: v as usize,
                        },
                        q,
                    ),
                )
            } else {
                Ok((v as usize, q))
            },
            Err(e) => Err(e),
        }
    } else {
        match sp_u32(enc, s, p) {
            Ok((v, q)) => if (v as i32) < 0 {
                Err((Error::NegativeLength { field: "list_length", value: v as i32 }, q))
            } else {
                Ok((v as usize, q))
            },
            Err(e) => Err(e),
        }
    }
}

/// The bytes of a 16-bit integer.
pub open spec fn enc_i16(enc: EncodingKind, v: i16) -> Seq<u8> {
    fixed_bytes(enc, (v as u16) as nat, 2)
}

/// The bytes of a 32-bit integer: fixed width, or a zigzag varint on the network.
pub open spec fn enc_i32(enc: EncodingKind, v: i32) -> Seq<u8> {
    if enc == EncodingKind::NetworkLittleEndian {
        var_bytes(zigzag(v as int))
    } else {
        fixed_bytes(enc, (v as u32) as nat, 4)
    }
}

/// The bytes of a 64-bit integer: fixed width, or a zigzag varint on the network.
pub open spec fn enc_i64(enc: EncodingKind, v: i64) -> Seq<u8> {
    if enc == EncodingKind::NetworkLittleEndian {
        var_bytes(zigzag(v as int))
    } else {
        fixed_bytes(enc, (v as u64) as nat, 8)
    }
}

/// The bytes of a string length: 16 bits, or a varint of at most `i32::MAX` on the network.
pub open spec fn enc_string_len(enc: EncodingKind, len: nat) -> std::result::Result<Seq<u8>, Error> {
    if enc == EncodingKind::NetworkLittleEndian {
        if len > 0x7fff_ffff {
            Err(Error::LengthOverflow { field: "string_length", max: 0x7fff_ffff, actual: len as usize })
        } else {
            Ok(var_bytes(len))
        }
    } else {
        if len > 0xffff {
            Err(Error::LengthOverflow { field: "string_length", max: 0xffff, actual: len as usize })
        } else {
            Ok(fixed_bytes(enc, len, 2))
        }
    }
}

/// The bytes of a list length, at most `i32::MAX`: 32 bits, or a varint on the network.
pub open spec fn enc_list_len(enc: EncodingKind, len: nat) -> std::result::Result<Seq<u8>, Error> {
    if len > 0x7fff_ffff {
        Err(Error::LengthOverflow { field: "list_length", max: 0x7fff_ffff, actual: len as usize })
    } else if enc == EncodingKind::NetworkLittleEndian {
        Ok(var_bytes(len))
    } else {
        Ok(fixed_bytes(enc, len, 4))
    }
}

pub(crate) fn read_u16_at(enc: EncodingKind, s: &[u8], p: usize) -> (r: Step<u16>)
    requires
        p <= s@.len(),
    ensures
        r == sp_u16(enc, s@, p),
        r matches Ok((_, q)) ==> p < q <= s@.len(),
        r matches Err((_, c)) ==> c <= s@.len(),
{
    if 2 > s.len() - p {
        return Err((Error::Io(IoErrorKind::UnexpectedEof), s.len()));
    }
    let b = &s[p..p + 2];
    let v = match enc {
        EncodingKind::BigEndian => be_read_u16(b),
        _ => le_read_u16(b),
    };
    assert(b@.subrange(0, 2) =~= b@);
    Ok((v, p + 2))
}

pub(crate) fn read_u32_at(enc: EncodingKind, s: &[u8], p: usize) -> (r: Step<u32>)
    requires
        p <= s@.len(),
    ensures
        r == sp_u32(enc, s@, p),
        r matches Ok((_, q)) ==> p < q <= s@.len(),
        r matches Err((_, c)) ==> c <= s@.len(),
{
    if 4 > s.len() - p {
        return Err((Error::Io(IoErrorKind::UnexpectedEof), s.len()));
    }
    let b = &s[p..p + 4];
    let v = match enc {
        EncodingKind::BigEndian => be_read_u32(b),
        _ => le_read_u32(b),
    };
    assert(b@.subrange(0, 4) =~= b@);
    Ok((v, p + 4))
}

pub(crate) fn read_u64_at(enc: EncodingKind, s: &[u8], p: usize) -> (r: Step<u64>)
    requires
        p <= s@.len(),
    ensures
        r == sp_u64(enc, s@, p),
        r matches Ok((_, q)) ==> p < q <= s@.len(),
        r matches Err((_, c)) ==> c <= s@.len(),
{
    if 8 > s.len() - p {
        return Err((Error::Io(IoErrorKind::UnexpectedEof), s.len()));
    }
    let b = &s[p..p + 8];
    let v = match enc {
        EncodingKind::BigEndian => be_read_u64(b),
        _ => le_read_u64(b),
    };
    assert(b@.subrange(0, 8) =~= b@);
    Ok((v, p + 8))
}

pub(crate) fn var_u32_at(s: &[u8], p: usize) -> (r: Step<u32>)
    requires
        p <= s@.len(),
    ensures
        r == sp_var_u32(s@, p),
        r matches Ok((_, q)) ==> p < q <= s@.len(),
        r matches Err((_, c)) ==> c <= s@.len(),
{
    let mut acc: u64 = 0;
    let mut mult: u64 = 1;
    let mut i: usize = 0;
    assert(p128(0) == 1);
    loop
        invariant
            i <= 4,
            p <= s@.len(),
            mult == p128(i as nat),
            acc < mult,
            mult <= 0x1000_0000,
            sp_var_u32(s@, p) == sp_var_u32_from(s@, p, i as nat, acc as nat),
        decreases 4 - i,
    {
        if i >= s.len() - p {
            return Err((Error::InvalidVarint { detail: "truncated u32 varint" }, s.len()));
        }
        let b = s[p + i];
        let digit = (b % 128) as u64;
        assert(acc + digit * mult < 128 * mult) by (nonlinear_arith)
            requires
                acc < mult,
                digit < 128,
        ;
        acc = acc + digit * mult;
        if b < 128 {
            return Ok(((acc % 0x1_0000_0000) as u32, p + i + 1));
        }
        if i == 4 {
            return Err((Error::InvalidVarint { detail: "u32 varint exceeds 5 bytes" }, p + i + 1));
        }
        i = i + 1;
        assert(mult <= 0x20_0000) by {
            reveal_with_fuel(p128, 5);
        }
        mult = mult * 128;
    }
}

pub(crate) fn var_u64_at(s: &[u8], p: usize) -> (r: Step<u64>)
    requires
        p <= s@.len(),
    ensures
        r == sp_var_u64(s@, p),
        r matches Ok((_, q)) ==> p < q <= s@.len(),
        r matches Err((_, c)) ==> c <= s@.len(),
{
    let mut acc: u64 = 0;
    let mut mult: u64 = 1;
    let mut i: usize = 0;
    assert(p128(0) == 1);
    loop
        invariant
            i <= 9,
            p <= s@.len(),
            mult == p128(i as nat),
            acc < mult,
            mult <= 0x8000_0000_0000_0000,
            i < 9 ==> mult <= 0x0100_0000_0000_0000,
            sp_var_u64(s@, p) == sp_var_u64_from(s@, p, i as nat, acc as nat),
        decreases 9 - i,
    {
        if i >= s.len() - p {
            return Err((Error::InvalidVarint { detail: "truncated u64 varint" }, s.len()));
        }
        let b = s[p + i];
        if i == 9 && b >= 128 {
            return Err((Error::InvalidVarint { detail: "u64 varint exceeds 10 bytes" }, p + i + 1));
        }
        if i == 9 && b > 1 {
            return Err(
                (Error::InvalidVarint { detail: "u64 varint terminal byte overflow" }, p + i + 1),
            );
        }
        let digit = (b % 128) as u64;
        assert(acc + digit * mult < 128 * mult) by (nonlinear_arith)
            requires
                acc < mult,
                digit < 128,
        ;
        assert(i == 9 ==> acc + digit * mult <= 0xffff_ffff_ffff_ffff) by (nonlinear_arith)
            requires
                acc < mult,
                i == 9 ==> digit <= 1,
                mult <= 0x8000_0000_0000_0000,
        ;
        acc = acc + digit * mult;
        if b < 128 {
            return Ok((acc, p + i + 1));
        }
        i = i + 1;
        assert(mult <= 0x0100_0000_0000_0000 && (i < 9 ==> mult <= 0x2_0000_0000_0000)) by {
            reveal_with_fuel(p128, 10);
        }
        mult = mult * 128;
    }
}

pub(crate) fn read_i16_at(enc: EncodingKind, s: &[u8], p: usize) -> (r: Step<i16>)
    requires
        p <= s@.len(),
    ensures
        r == sp_i16(enc, s@, p),
        r matches Ok((_, q)) ==> p < q <= s@.len(),
        r matches Err((_, c)) ==> c <= s@.len(),
{
    match read_u16_at(enc, s, p) {
        Ok((v, q)) => Ok((v as i16, q)),
        Err(e) => Err(e),
    }
}

pub(crate) fn read_i32_at(enc: EncodingKind, s: &[u8], p: usize) -> (r: Step<i32>)
    requires
        p <= s@.len(),
    ensures
        r == sp_i32(enc, s@, p),
        r matches Ok((_, q)) ==> p < q <= s@.len(),
        r matches Err((_, c)) ==> c <= s@.len(),
{
    match enc {
        EncodingKind::NetworkLittleEndian => match var_u32_at(s, p) {
            Ok((v, q)) => Ok((decode_zigzag_i32(v), q)),
            Err(e) => Err(e),
        },
        _ => match read_u32_at(enc, s, p) {
            Ok((v, q)) => Ok((v as i32, q)),
            Err(e) => Err(e),
        },
    }
}

pub(crate) fn read_i64_at(enc: EncodingKind, s: &[u8], p: usize) -> (r: Step<i64>)
    requires
        p <= s@.len(),
    ensures
        r == sp_i64(enc, s@, p),
        r matches Ok((_, q)) ==> p < q <= s@.len(),
        r matches Err((_, c)) ==> c <= s@.len(),
{
    match enc {
        EncodingKind::NetworkLittleEndian => match var_u64_at(s, p) {
            Ok((v, q)) => Ok((decode_zigzag_i64(v), q)),
            Err(e) => Err(e),
        },
        _ => match read_u64_at(enc, s, p) {
            Ok((v, q)) => Ok((v as i64, q)),
            Err(e) => Err(e),
        },
    }
}

pub(crate) fn read_string_len_at(enc: EncodingKind, s: &[u8], p: usize) -> (r: Step<usize>)
    requires
        p <= s@.len(),
    ensures
        r == sp_string_len(enc, s@, p),
        r matches Ok((_, q)) ==> p < q <= s@.len(),
        r matches Err((_, c)) ==> c <= s@.len(),
{
    match enc {
        EncodingKind::NetworkLittleEndian => match var_u32_at(s, p) {
            Ok((v, q)) => {
                if v > 0x7fff_ffff {
                    Err(
                        (
                            Error::LengthOverflow {
                                field: "string_length",
                                max: 0x7fff_ffff,
                                actual: v as usize,
                            },
                            q,
                        ),
                    )
                } else {
                    Ok((v as usize, q))
                }
            },
            Err(e) => Err(e),
        },
        _ => match read_u16_at(enc, s, p) {
            Ok((v, q)) => Ok((v as usize, q)),
            Err(e) => Err(e),
        },
    }
}

pub(crate) fn read_list_len_at(enc: EncodingKind, s: &[u8], p: usize) -> (r: Step<usize>)
    requires
        p <= s@.len(),
    ensures
        r == sp_list_len(enc, s@, p),
        r matches Ok((_, q)) ==> p < q <= s@.len(),
        r matches Err((_, c)) ==> c <= s@.len(),
{
    match enc {
        EncodingKind::NetworkLittleEndian => match var_u32_at(s, p) {
            Ok((v, q)) => {
                if v > 0x7fff_ffff {
                    Err(
                        (
                            Error::LengthOverflow {
                                field: "list_length",
                                max: 0x7fff_ffff,
                                actual: v as usize,
                            },
                            q,
                        ),
                    )
                } else {
                    Ok((v as usize, q))
                }
            },
            Err(e) => Err(e),
        },
        _ => match read_u32_at(enc, s, p) {
            Ok((v, q)) => {
                let value = v as i32;
                assert((v as i32) < 0 <==> v > 0x7fff_ffff) by (bit_vector);
                if value < 0 {
                    Err((Error::NegativeLength { field: "list_length", value }, q))
                } else {
                    Ok((v as usize, q))
                }
            },
            Err(e) => Err(e),
        },
    }
}

/// Appends bytes to a buffer.
pub(crate) fn append_bytes(out: &mut Vec<u8>, b: &[u8])
    ensures
        final(out)@ == old(out)@ + b@,
{
    let mut i: usize = 0;
    while i < b.len()
        invariant
            i <= b@.len(),
            out@ == old(out)@ + b@.subrange(0, i as int),
        decreases b@.len() - i,
    {
        out.push(b[i]);
        i = i + 1;
        assert(out@ =~= old(out)@ + b@.subrange(0, i as int));
    }
    assert(b@.subrange(0, i as int) =~= b@);
}

pub(crate) fn write_u16_to(enc: EncodingKind, out: &mut Vec<u8>, v: u16)
    ensures
        final(out)@ == old(out)@ + fixed_bytes(enc, v as nat, 2),
{
    match enc {
        EncodingKind::BigEndian => {
            let b = be_write_u16(v);
            append_bytes(out, b.as_slice());
        },
        _ => {
            let b = le_write_u16(v);
            append_bytes(out, b.as_slice());
        },
    }
}

pub(crate) fn write_u32_to(enc: EncodingKind, out: &mut Vec<u8>, v: u32)
    ensures
        final(out)@ == old(out)@ + fixed_bytes(enc, v as nat, 4),
{
    match enc {
        EncodingKind::BigEndian => {
            let b = be_write_u32(v);
            append_bytes(out, b.as_slice());
        },
        _ => {
            let b = le_write_u32(v);
            append_bytes(out, b.as_slice());
        },
    }
}

pub(crate) fn write_u64_to(enc: EncodingKind, out: &mut Vec<u8>, v: u64)
    ensures
        final(out)@ == old(out)@ + fixed_bytes(enc, v as nat, 8),
{
    match enc {
        EncodingKind::BigEndian => {
            let b = be_write_u64(v);
            append_bytes(out, b.as_slice());
        },
        _ => {
            let b = le_write_u64(v);
            append_bytes(out, b.as_slice());
        },
    }
}

pub(crate) fn var_u64_to(out: &mut Vec<u8>, value: u64)
    ensures
        final(out)@ == old(out)@ + var_bytes(value as nat),
{
    let mut v = value;
    loop
        invariant
            out@ + var_bytes(v as nat) == old(out)@ + var_bytes(value as nat),
        decreases v,
    {
        let mut byte = (v % 128) as u8;
        let ghost prev = v;
        v = v / 128;
        if v != 0 {
            byte = byte + 128;
        }
        let ghost before = out@;
        out.push(byte);
        if v == 0 {
            assert(var_bytes(prev as nat) == seq![prev as u8]);
            assert(out@ =~= before + var_bytes(prev as nat));
            return;
        }
        assert(var_bytes(prev as nat) == seq![byte] + var_bytes(v as nat));
        assert(out@ + var_bytes(v as nat) =~= before + var_bytes(prev as nat));
    }
}

pub(crate) fn write_i16_to(enc: EncodingKind, out: &mut Vec<u8>, v: i16)
    ensures
        final(out)@ == old(out)@ + enc_i16(enc, v),
{
    write_u16_to(enc, out, v as u16)
}

pub(crate) fn write_i32_to(enc: EncodingKind, out: &mut Vec<u8>, v: i32)
    ensures
        final(out)@ == old(out)@ + enc_i32(enc, v),
{
    match enc {
        EncodingKind::NetworkLittleEndian => var_u64_to(out, encode_zigzag_i32(v) as u64),
        _ => write_u32_to(enc, out, v as u32),
    }
}

pub(crate) fn write_i64_to(enc: EncodingKind, out: &mut Vec<u8>, v: i64)
    ensures
        final(out)@ == old(out)@ + enc_i64(enc, v),
{
    match enc {
        EncodingKind::NetworkLittleEndian => var_u64_to(out, encode_zigzag_i64(v)),
        _ => write_u64_to(enc, out, v as u64),
    }
}

pub(crate) fn write_string_len_to(enc: EncodingKind, out: &mut Vec<u8>, len: usize) -> (r: Result<()>)
    ensures
        match enc_string_len(enc, len as nat) {
            Ok(b) => r is Ok && final(out)@ == old(out)@ + b,
            Err(e) => r == Err::<(), Error>(e) && final(out)@ == old(out)@,
        },
{
    match enc {
        EncodingKind::NetworkLittleEndian => {
            if len > 0x7fff_ffff {
                return Err(Error::LengthOverflow { field: "string_length", max: 0x7fff_ffff, actual: len });
            }
            var_u64_to(out, len as u64);
            Ok(())
        },
        _ => {
            if len > 0xffff {
                return Err(Error::LengthOverflow { field: "string_length", max: 0xffff, actual: len });
            }
            write_u16_to(enc, out, len as u16);
            Ok(())
        },
    }
}

pub(crate) fn write_list_len_to(enc: EncodingKind, out: &mut Vec<u8>, len: usize) -> (r: Result<()>)
    ensures
        match enc_list_len(enc, len as nat) {
            Ok(b) => r is Ok && final(out)@ == old(out)@ + b,
            Err(e) => r == Err::<(), Error>(e) && final(out)@ == old(out)@,
        },
{
    if len > 0x7fff_ffff {
        return Err(Error::LengthOverflow { field: "list_length", max: 0x7fff_ffff, actual: len });
    }
    match enc {
        EncodingKind::NetworkLittleEndian => var_u64_to(out, len as u64),
        _ => write_u32_to(enc, out, len as u32),
    }
    Ok(())
}

} // verus!
