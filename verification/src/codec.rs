use crate::encoding::{
    enc_i16, enc_i32, enc_i64, enc_list_len, enc_string_len, fixed_bytes, read_i16_at, read_i32_at,
    read_i64_at, read_list_len_at, read_string_len_at, read_u32_at, read_u64_at, sp_i16, sp_i32,
    sp_i64, sp_list_len, sp_string_len, sp_u32, sp_u64, sp_var_u32, sp_var_u64, var_bytes,
    var_u32_at, var_u64_at, var_u64_to, write_i16_to, write_i32_to, write_i64_to,
    write_list_len_to, write_string_len_to, write_u32_to, write_u64_to, BigEndian, Encoding,
    EncodingKind, LittleEndian, NetworkLittleEndian,
};
use crate::error::Result;
use crate::reader::{reads_as, ByteReader};
use core::marker::PhantomData;
use vstd::prelude::*;

verus! {

/// Reads an unsigned LEB128 number of at most five bytes.
pub fn read_var_u32(reader: &mut ByteReader) -> (r: Result<u32>)
    ensures
        reads_as(*old(reader), *final(reader), r, sp_var_u32(old(reader).rest(), 0)),
{
    let res = var_u32_at(reader.remaining_slice(), 0);
    reader.settle(res)
}

/// Writes an unsigned LEB128 number, seven bits per byte, low bits first.
pub fn write_var_u32(writer: &mut Vec<u8>, value: u32) -> (r: Result<()>)
    ensures
        r is Ok,
        final(writer)@ == old(writer)@ + var_bytes(value as nat),
{
    var_u64_to(writer, value as u64);
    Ok(())
}

/// Reads an unsigned LEB128 number of at most ten bytes.
pub fn read_var_u64(reader: &mut ByteReader) -> (r: Result<u64>)
    ensures
        reads_as(*old(reader), *final(reader), r, sp_var_u64(old(reader).rest(), 0)),
{
    let res = var_u64_at(reader.remaining_slice(), 0);
    reader.settle(res)
}

/// Writes an unsigned LEB128 number, seven bits per byte, low bits first.
pub fn write_var_u64(writer: &mut Vec<u8>, value: u64) -> (r: Result<()>)
    ensures
        r is Ok,
        final(writer)@ == old(writer)@ + var_bytes(value as nat),
{
    var_u64_to(writer, value);
    Ok(())
}

/// Reads a zigzag-encoded LEB128 `i32`.
pub fn read_var_i32(reader: &mut ByteReader) -> (r: Result<i32>)
    ensures
        reads_as(
            *old(reader),
            *final(reader),
            r,
            sp_i32(EncodingKind::NetworkLittleEndian, old(reader).rest(), 0),
        ),
{
    let res = read_i32_at(EncodingKind::NetworkLittleEndian, reader.remaining_slice(), 0);
    reader.settle(res)
}

/// Writes an `i32` zigzag-encoded as LEB128.
pub fn write_var_i32(writer: &mut Vec<u8>, value: i32) -> (r: Result<()>)
    ensures
        r is Ok,
        final(writer)@ == old(writer)@ + enc_i32(EncodingKind::NetworkLittleEndian, value),
{
    write_i32_to(EncodingKind::NetworkLittleEndian, writer, value);
    Ok(())
}

/// Reads a zigzag-encoded LEB128 `i64`.
pub fn read_var_i64(reader: &mut ByteReader) -> (r: Result<i64>)
    ensures
        reads_as(
            *old(reader),
            *final(reader),
            r,
            sp_i64(EncodingKind::NetworkLittleEndian, old(reader).rest(), 0),
        ),
{
    let res = read_i64_at(EncodingKind::NetworkLittleEndian, reader.remaining_slice(), 0);
    reader.settle(res)
}

/// Writes an `i64` zigzag-encoded as LEB128.
pub fn write_var_i64(writer: &mut Vec<u8>, value: i64) -> (r: Result<()>)
    ensures
        r is Ok,
        final(writer)@ == old(writer)@ + enc_i64(EncodingKind::NetworkLittleEndian, value),
{
    write_i64_to(EncodingKind::NetworkLittleEndian, writer, value);
    Ok(())
}

/// Reading and writing the numbers and lengths of NBT in the layout `E`.
/// `read_f32` and friends carry IEEE-754 values as their bit patterns.
#[derive(Debug)]
pub struct Codec<E: Encoding> {
    pub marker: PhantomData<E>,
}

/// The codec of big-endian NBT (Java edition files).
pub type BigEndianCodec = Codec<BigEndian>;

/// The codec of little-endian NBT (Bedrock edition files).
pub type LittleEndianCodec = Codec<LittleEndian>;

/// The codec of network little-endian NBT (Bedrock protocol).
pub type NetworkLittleEndianCodec = Codec<NetworkLittleEndian>;

impl<E: Encoding> Codec<E> {
    /// A codec for the layout `E`.
    pub fn new() -> (r: Self) {
        Codec { marker: PhantomData }
    }

    /// The layout this codec reads and writes.
    pub fn kind(&self) -> (k: EncodingKind)
        ensures
            k == E::spec_kind(),
    {
        E::kind()
    }

    /// Reads an `i16` in this layout.
    pub fn read_i16(&self, reader: &mut ByteReader) -> (r: Result<i16>)
        ensures
            reads_as(*old(reader), *final(reader), r, sp_i16(E::spec_kind(), old(reader).rest(), 0)),
    {
        let res = read_i16_at(E::kind(), reader.remaining_slice(), 0);
        reader.settle(res)
    }

    /// Appends an `i16` in this layout.
    pub fn write_i16(&self, writer: &mut Vec<u8>, value: i16) -> (r: Result<()>)
        ensures
            r is Ok,
            final(writer)@ == old(writer)@ + enc_i16(E::spec_kind(), value),
    {
        write_i16_to(E::kind(), writer, value);
        Ok(())
    }

    /// Reads an `i32`: four bytes, or a zigzag varint on the network.
    pub fn read_i32(&self, reader: &mut ByteReader) -> (r: Result<i32>)
        ensures
            reads_as(*old(reader), *final(reader), r, sp_i32(E::spec_kind(), old(reader).rest(), 0)),
    {
        let res = read_i32_at(E::kind(), reader.remaining_slice(), 0);
        reader.settle(res)
    }

    /// Appends an `i32`: four bytes, or a zigzag varint on the network.
    pub fn write_i32(&self, writer: &mut Vec<u8>, value: i32) -> (r: Result<()>)
        ensures
            r is Ok,
            final(writer)@ == old(writer)@ + enc_i32(E::spec_kind(), value),
    {
        write_i32_to(E::kind(), writer, value);
        Ok(())
    }

    /// Reads an `i64`: eight bytes, or a zigzag varint on the network.
    pub fn read_i64(&self, reader: &mut ByteReader) -> (r: Result<i64>)
        ensures
            reads_as(*old(reader), *final(reader), r, sp_i64(E::spec_kind(), old(reader).rest(), 0)),
    {
        let res = read_i64_at(E::kind(), reader.remaining_slice(), 0);
        reader.settle(res)
    }

    /// Appends an `i64`: eight bytes, or a zigzag varint on the network.
    pub fn write_i64(&self, writer: &mut Vec<u8>, value: i64) -> (r: Result<()>)
        ensures
            r is Ok,
            final(writer)@ == old(writer)@ + enc_i64(E::spec_kind(), value),
    {
        write_i64_to(E::kind(), writer, value);
        Ok(())
    }

    /// Reads the bit pattern of an `f32`.
    pub fn read_f32(&self, reader: &mut ByteReader) -> (r: Result<u32>)
        ensures
            reads_as(*old(reader), *final(reader), r, sp_u32(E::spec_kind(), old(reader).rest(), 0)),
    {
        let res = read_u32_at(E::kind(), reader.remaining_slice(), 0);
        reader.settle(res)
    }

    /// Writes the bit pattern of an `f32`.
    pub fn write_f32(&self, writer: &mut Vec<u8>, bits: u32) -> (r: Result<()>)
        ensures
            r is Ok,
            final(writer)@ == old(writer)@ + fixed_bytes(E::spec_kind(), bits as nat, 4),
    {
        write_u32_to(E::kind(), writer, bits);
        Ok(())
    }

    /// Reads the bit pattern of an `f64`.
    pub fn read_f64(&self, reader: &mut ByteReader) -> (r: Result<u64>)
        ensures
            reads_as(*old(reader), *final(reader), r, sp_u64(E::spec_kind(), old(reader).rest(), 0)),
    {
        let res = read_u64_at(E::kind(), reader.remaining_slice(), 0);
        reader.settle(res)
    }

    /// Writes the bit pattern of an `f64`.
    pub fn write_f64(&self, writer: &mut Vec<u8>, bits: u64) -> (r: Result<()>)
        ensures
            r is Ok,
            final(writer)@ == old(writer)@ + fixed_bytes(E::spec_kind(), bits as nat, 8),
    {
        write_u64_to(E::kind(), writer, bits);
        Ok(())
    }

    /// Reads the length prefix of a string.
    pub fn read_string_len(&self, reader: &mut ByteReader) -> (r: Result<usize>)
        ensures
            reads_as(
                *old(reader),
                *final(reader),
                r,
                sp_string_len(E::spec_kind(), old(reader).rest(), 0),
            ),
    {
        let res = read_string_len_at(E::kind(), reader.remaining_slice(), 0);
        reader.settle(res)
    }

    /// Appends the length prefix of a string; refuses a length the layout cannot hold.
    pub fn write_string_len(&self, writer: &mut Vec<u8>, len: usize) -> (r: Result<()>)
        ensures
            match enc_string_len(E::spec_kind(), len as nat) {
                Ok(b) => r is Ok && final(writer)@ == old(writer)@ + b,
                Err(e) => r == Err::<(), crate::error::Error>(e) && final(writer)@ == old(writer)@,
            },
    {
        write_string_len_to(E::kind(), writer, len)
    }

    /// Reads the length prefix of a list; refuses a negative length.
    pub fn read_list_len(&self, reader: &mut ByteReader) -> (r: Result<usize>)
        ensures
            reads_as(
                *old(reader),
                *final(reader),
                r,
                sp_list_len(E::spec_kind(), old(reader).rest(), 0),
            ),
    {
        let res = read_list_len_at(E::kind(), reader.remaining_slice(), 0);
        reader.settle(res)
    }

    /// Appends the length prefix of a list; refuses a length the layout cannot hold.
    pub fn write_list_len(&self, writer: &mut Vec<u8>, len: usize) -> (r: Result<()>)
        ensures
            match enc_list_len(E::spec_kind(), len as nat) {
                Ok(b) => r is Ok && final(writer)@ == old(writer)@ + b,
                Err(e) => r == Err::<(), crate::error::Error>(e) && final(writer)@ == old(writer)@,
            },
    {
        write_list_len_to(E::kind(), writer, len)
    }
}

} // verus!
