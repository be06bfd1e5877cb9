use crate::config::{default_config, NbtReadConfig, ParseMode};
use crate::encoding::{sp_take, Encoding, EncodingKind, Step};
use crate::error::{wrap, Error, IoErrorKind, Result};
use crate::limits::NbtLimits;
use crate::payload::{extends, payload_at, write_payload};
use crate::payload_spec::{ctx, enc_payload, prefix_then, refused_up_front, sp_read_payload};
use crate::reader::{reads_as, step_view, ByteReader};
use crate::tag::{decode_type_id, type_id, view_type, Tag, TagType, TagView};
use vstd::prelude::*;

verus! {

broadcast use vstd::seq::group_seq_axioms;

/// A reading step over input that starts `k` bytes later.
pub open spec fn shift<T>(r: Step<T>, k: usize) -> Step<T> {
    match r {
        Ok((v, q)) => Ok((v, (q + k) as usize)),
        Err((e, c)) => Err((e, (c + k) as usize)),
    }
}

/// Reading one byte at `p`, named `field` in an error.
pub open spec fn sp_byte(s: Seq<u8>, p: usize, field: &'static str) -> Step<u8> {
    match ctx(sp_take(s, p, 1), "read_exact", p, field) {
        Ok((b, q)) => Ok((b[0], q)),
        Err(e) => Err(e),
    }
}

/// Reading a headless payload whose type is given by its id.
pub open spec fn sp_by_id(enc: EncodingKind, cfg: NbtReadConfig, s: Seq<u8>, id: u8) -> Step<TagView> {
    match decode_type_id(id) {
        Err(e) => Err((wrap(e, "decode_tag_type", 0, Some("tag_type_id")), 0)),
        Ok(t) => sp_read_payload(enc, cfg, s, t),
    }
}

/// Reading a type id byte and then the headless payload of that type.
pub open spec fn sp_prefixed(enc: EncodingKind, cfg: NbtReadConfig, s: Seq<u8>) -> Step<TagView> {
    match sp_byte(s, 0, "tag_type_id") {
        Err(e) => Err(e),
        Ok((id, _)) => shift(sp_by_id(enc, cfg, s.subrange(1, s.len() as int), id), 1),
    }
}

/// The bytes of a value written as type id and payload.
pub open spec fn enc_prefixed(enc: EncodingKind, v: TagView) -> std::result::Result<Seq<u8>, Error> {
    if v is End {
        Err(Error::UnexpectedEndTagPayload)
    } else {
        prefix_then(seq![type_id(view_type(v))], enc_payload(enc, v))
    }
}

pub(crate) fn byte_at(s: &[u8], p: usize, field: &'static str) -> (r: Step<u8>)
    requires
        p <= s@.len(),
    ensures
        r == sp_byte(s@, p, field),
        r matches Ok((_, q)) ==> q == p + 1 && q <= s@.len(),
        r matches Err((_, c)) ==> c <= s@.len(),
{
    if p >= s.len() {
        return Err(
            (Error::Io(IoErrorKind::UnexpectedEof).with_context("read_exact", p, Some(field)), s.len()),
        );
    }
    assert(s@.subrange(p as int, p + 1)[0] == s@[p as int]);
    Ok((s[p], p + 1))
}

fn by_id_at(enc: EncodingKind, cfg: NbtReadConfig, s: &[u8], id: u8) -> (r: Step<Tag>)
    ensures
        step_view(r) == sp_by_id(enc, cfg, s@, id),
        r matches Ok((_, q)) ==> q <= s@.len(),
        r matches Err((_, c)) ==> c <= s@.len(),
{
    match TagType::from_id(id) {
        Err(e) => Err((e.with_context("decode_tag_type", 0, Some("tag_type_id")), 0)),
        Ok(t) => payload_at(enc, cfg, s, t),
    }
}

/// Reads a type id byte and the headless payload of that type from the start of `s`.
pub(crate) fn prefixed_at(enc: EncodingKind, cfg: NbtReadConfig, s: &[u8]) -> (r: Step<Tag>)
    ensures
        step_view(r) == sp_prefixed(enc, cfg, s@),
        r matches Ok((_, q)) ==> q <= s@.len(),
        r matches Err((_, c)) ==> c <= s@.len(),
{
    let id = match byte_at(s, 0, "tag_type_id") {
        Ok((b, _)) => b,
        Err(e) => return Err(e),
    };
    let rest = &s[1..s.len()];
    match by_id_at(enc, cfg, rest, id) {
        Ok((t, q)) => Ok((t, q + 1)),
        Err((e, c)) => Err((e, c + 1)),
    }
}

/// Reads a headless value whose type is known from the surrounding data.
pub fn read_value<E: Encoding>(reader: &mut ByteReader, tag_type: TagType) -> (r: Result<Tag>)
    ensures
        reads_as(
            *old(reader),
            *final(reader),
            r,
            sp_read_payload(E::spec_kind(), default_config(), old(reader).rest(), tag_type),
        ),
{
    read_value_with_config::<E>(reader, tag_type, &NbtReadConfig::default())
}

/// Reads a payload of the given type, with limits and the strict mode.
pub fn read_value_with_limits<E: Encoding>(
    reader: &mut ByteReader,
    tag_type: TagType,
    limits: &NbtLimits,
) -> (r: Result<Tag>)
    ensures
        reads_as(
            *old(reader),
            *final(reader),
            r,
            sp_read_payload(
                E::spec_kind(),
                NbtReadConfig { limits: *limits, parse_mode: ParseMode::Strict },
                old(reader).rest(),
                tag_type,
            ),
        ),
{
    read_value_with_config::<E>(reader, tag_type, &NbtReadConfig::strict(*limits))
}

/// Reads a payload of the given type with the given configuration.
pub fn read_value_with_config<E: Encoding>(
    reader: &mut ByteReader,
    tag_type: TagType,
    config: &NbtReadConfig,
) -> (r: Result<Tag>)
    ensures
        reads_as(
            *old(reader),
            *final(reader),
            r,
            sp_read_payload(E::spec_kind(), *config, old(reader).rest(), tag_type),
        ),
{
    let res = payload_at(E::kind(), *config, reader.remaining_slice(), tag_type);
    reader.settle(res)
}

/// Appends a headless value: no type id, no name. What `write_payload` refuses
/// up front leaves the writer as it was; on another failure, what was appended
/// before it stays.
pub fn write_value<E: Encoding>(writer: &mut Vec<u8>, value: &Tag) -> (r: Result<()>)
    ensures
        match enc_payload(E::spec_kind(), value@) {
            Ok(b) => r is Ok && final(writer)@ == old(writer)@ + b,
            Err(e) => r == Err::<(), Error>(e) && extends(old(writer)@, final(writer)@),
        },
        refused_up_front(value@) ==> final(writer)@ == old(writer)@,
{
    write_payload::<E>(writer, value)
}

/// Reads a payload of the given type, with no name or type id before it.
pub fn read_headless<E: Encoding>(reader: &mut ByteReader, tag_type: TagType) -> (r: Result<Tag>)
    ensures
        reads_as(
            *old(reader),
            *final(reader),
            r,
            sp_read_payload(E::spec_kind(), default_config(), old(reader).rest(), tag_type),
        ),
{
    read_value::<E>(reader, tag_type)
}

/// Reads a headless payload of the given type, with limits and the strict mode.
pub fn read_headless_with_limits<E: Encoding>(
    reader: &mut ByteReader,
    tag_type: TagType,
    limits: &NbtLimits,
) -> (r: Result<Tag>)
    ensures
        reads_as(
            *old(reader),
            *final(reader),
            r,
            sp_read_payload(
                E::spec_kind(),
                NbtReadConfig { limits: *limits, parse_mode: ParseMode::Strict },
                old(reader).rest(),
                tag_type,
            ),
        ),
{
    read_value_with_limits::<E>(reader, tag_type, limits)
}

/// Reads a headless payload of the given type with the given configuration.
pub fn read_headless_with_config<E: Encoding>(
    reader: &mut ByteReader,
    tag_type: TagType,
    config: &NbtReadConfig,
) -> (r: Result<Tag>)
    ensures
        reads_as(
            *old(reader),
            *final(reader),
            r,
            sp_read_payload(E::spec_kind(), *config, old(reader).rest(), tag_type),
        ),
{
    read_value_with_config::<E>(reader, tag_type, config)
}

/// Appends the payload of a value, with no name or type id before it. What
/// `write_payload` refuses up front leaves the writer as it was; on another
/// failure, what was appended before it stays.
pub fn write_headless<E: Encoding>(writer: &mut Vec<u8>, value: &Tag) -> (r: Result<()>)
    ensures
        match enc_payload(E::spec_kind(), value@) {
            Ok(b) => r is Ok && final(writer)@ == old(writer)@ + b,
            Err(e) => r == Err::<(), Error>(e) && extends(old(writer)@, final(writer)@),
        },
        refused_up_front(value@) ==> final(writer)@ == old(writer)@,
{
    write_value::<E>(writer, value)
}

/// Reads a headless value whose type is given by its id byte.
pub fn read_headless_by_id<E: Encoding>(reader: &mut ByteReader, tag_type_id: u8) -> (r: Result<Tag>)
    ensures
        reads_as(
            *old(reader),
            *final(reader),
            r,
            sp_by_id(E::spec_kind(), default_config(), old(reader).rest(), tag_type_id),
        ),
{
    read_headless_by_id_with_config::<E>(reader, tag_type_id, &NbtReadConfig::default())
}

/// Reads a payload whose type is given by its id, with limits and the strict mode.
pub fn read_headless_by_id_with_limits<E: Encoding>(
    reader: &mut ByteReader,
    tag_type_id: u8,
    limits: &NbtLimits,
) -> (r: Result<Tag>)
    ensures
        reads_as(
            *old(reader),
            *final(reader),
            r,
            sp_by_id(
                E::spec_kind(),
                NbtReadConfig { limits: *limits, parse_mode: ParseMode::Strict },
                old(reader).rest(),
                tag_type_id,
            ),
        ),
{
    read_headless_by_id_with_config::<E>(reader, tag_type_id, &NbtReadConfig::strict(*limits))
}

/// Reads a payload whose type is given by its id, with the given configuration.
pub fn read_headless_by_id_with_config<E: Encoding>(
    reader: &mut ByteReader,
    tag_type_id: u8,
    config: &NbtReadConfig,
) -> (r: Result<Tag>)
    ensures
        reads_as(
            *old(reader),
            *final(reader),
            r,
            sp_by_id(E::spec_kind(), *config, old(reader).rest(), tag_type_id),
        ),
{
    let res = by_id_at(E::kind(), *config, reader.remaining_slice(), tag_type_id);
    reader.settle(res)
}

/// Reads a type id byte followed by the headless payload of that type.
pub fn read_headless_prefixed<E: Encoding>(reader: &mut ByteReader) -> (r: Result<Tag>)
    ensures
        reads_as(
            *old(reader),
            *final(reader),
            r,
            sp_prefixed(E::spec_kind(), default_config(), old(reader).rest()),
        ),
{
    read_headless_prefixed_with_config::<E>(reader, &NbtReadConfig::default())
}

/// Reads a type id and then its payload, with limits and the strict mode.
pub fn read_headless_prefixed_with_limits<E: Encoding>(reader: &mut ByteReader, limits: &NbtLimits) -> (r: Result<Tag>)
    ensures
        reads_as(
            *old(reader),
            *final(reader),
            r,
            sp_prefixed(
                E::spec_kind(),
                NbtReadConfig { limits: *limits, parse_mode: ParseMode::Strict },
                old(reader).rest(),
            ),
        ),
{
    read_headless_prefixed_with_config::<E>(reader, &NbtReadConfig::strict(*limits))
}

/// Reads a type id and then its payload, with the given configuration.
pub fn read_headless_prefixed_with_config<E: Encoding>(
    reader: &mut ByteReader,
    config: &NbtReadConfig,
) -> (r: Result<Tag>)
    ensures
        reads_as(*old(reader), *final(reader), r, sp_prefixed(E::spec_kind(), *config, old(reader).rest())),
{
    let res = prefixed_at(E::kind(), *config, reader.remaining_slice());
    reader.settle(res)
}

/// Appends a value as its type id followed by its payload, with no name. `End`
/// is refused before any byte is written; on another failure, what was appended
/// before it stays.
pub fn write_headless_prefixed<E: Encoding>(writer: &mut Vec<u8>, value: &Tag) -> (r: Result<()>)
    ensures
        match enc_prefixed(E::spec_kind(), value@) {
            Ok(b) => r is Ok && final(writer)@ == old(writer)@ + b,
            Err(e) => r == Err::<(), Error>(e) && extends(old(writer)@, final(writer)@),
        },
        value@ is End ==> final(writer)@ == old(writer)@,
{
    if let Tag::End = value {
        assert(writer@.subrange(0, writer@.len() as int) =~= writer@);
        return Err(Error::UnexpectedEndTagPayload);
    }
    writer.push(value.tag_type().id());
    let ghost with_id = writer@;
    let r = write_headless::<E>(writer, value);
    proof {
        if r is Ok {
            assert(writer@ =~= old(writer)@ + enc_prefixed(E::spec_kind(), value@)->Ok_0);
        } else {
            assert(writer@.subrange(0, with_id.len() as int) == with_id);
            assert(writer@.subrange(0, old(writer)@.len() as int) =~= with_id.subrange(0, old(writer)@.len() as int));
            assert(with_id.subrange(0, old(writer)@.len() as int) =~= old(writer)@);
        }
    }
    r
}

/// Decodes a headless payload of the given type from the start of `bytes`.
pub fn from_headless_bytes<E: Encoding>(bytes: &[u8], tag_type: TagType) -> (r: Result<Tag>)
    ensures
        match sp_read_payload(E::spec_kind(), default_config(), bytes@, tag_type) {
            Ok((v, _)) => r matches Ok(t) && t@ == v,
            Err((e, _)) => r == Err::<Tag, Error>(e),
        },
{
    match payload_at(E::kind(), NbtReadConfig::default(), bytes, tag_type) {
        Ok((t, _)) => Ok(t),
        Err((e, _)) => Err(e),
    }
}

/// Encodes the headless payload of `value`.
pub fn to_headless_bytes<E: Encoding>(value: &Tag) -> (r: Result<Vec<u8>>)
    ensures
        match enc_payload(E::spec_kind(), value@) {
            Ok(b) => r matches Ok(out) && out@ == b,
            Err(e) => r == Err::<Vec<u8>, Error>(e),
        },
{
    let mut out: Vec<u8> = Vec::new();
    match write_headless::<E>(&mut out, value) {
        Ok(()) => {
            assert(out@ =~= enc_payload(E::spec_kind(), value@)->Ok_0);
            Ok(out)
        },
        Err(e) => Err(e),
    }
}

} // verus!
