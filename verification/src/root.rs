use crate::config::{default_config, NbtReadConfig, ParseMode};
use crate::encoding::{
    fixed_bytes, read_string_len_at, read_u32_at, sp_string_len, sp_take, sp_u32, write_u32_to,
    Encoding, EncodingKind, Step,
};
use crate::error::{wrap, Error, IoErrorKind, Result};
use crate::headless::{byte_at, sp_byte};
use crate::limits::NbtLimits;
use crate::payload::{extends, payload_at, write_payload, write_string_to};
use crate::payload_spec::{ctx, enc_payload, enc_string, prefix_then, sp_read_payload};
use crate::reader::{reads_as, step_view, ByteReader};
use crate::tag::{decode_type_id, type_id, view_type, Tag, TagType, TagView};
use crate::text::utf8_to_str;
use vstd::prelude::*;
use vstd::utf8::{decode_utf8, valid_utf8};

verus! {

broadcast use vstd::seq::group_seq_axioms;

/// The storage marker that opens a Bedrock file header.
pub const BEDROCK_FILE_HEADER_MAGIC: u32 = 8;

/// A named root value: the outermost value of an NBT document.
#[derive(Debug, PartialEq)]
pub struct RootTag {
    pub name: String,
    pub payload: Tag,
}

impl View for RootTag {
    type V = (Seq<char>, TagView);

    open spec fn view(&self) -> (Seq<char>, TagView) {
        (self.name@, self.payload@)
    }
}

impl RootTag {
    /// A root of the given name and payload.
    pub fn new(name: &str, payload: Tag) -> (r: Self)
        ensures
            r.name@ == name@,
            r.payload == payload,
    {
        RootTag { name: name.to_owned(), payload }
    }
}

/// Which header a reader expects before the root value.
#[derive(Debug, Clone, Copy, PartialEq, Eq, Structural)]
pub enum HeaderReadMode {
    NoHeader,
    BedrockFileHeader,
    LevelDatHeader,
}

/// Which header a writer puts before the root value.
#[derive(Debug, Clone, Copy, PartialEq, Eq, Structural)]
pub enum HeaderWriteMode {
    NoHeader,
    BedrockFileHeader,
    LevelDatHeader { storage_version: u32 },
}

/// Root values are compounds or lists; compatible mode accepts any type but `End`.
pub open spec fn valid_root_type(t: TagType, mode: ParseMode) -> bool {
    match mode {
        ParseMode::Strict => t == TagType::Compound || t == TagType::List,
        ParseMode::Compatible => t != TagType::End,
    }
}

fn is_valid_root_tag_type(tag_type: TagType, parse_mode: ParseMode) -> (r: bool)
    ensures
        r == valid_root_type(tag_type, parse_mode),
{
    match parse_mode {
        ParseMode::Strict => match tag_type {
            TagType::Compound | TagType::List => true,
            _ => false,
        },
        ParseMode::Compatible => match tag_type {
            TagType::End => false,
            _ => true,
        },
    }
}

// ---------------------------------------------------------------------------
// The formats
// ---------------------------------------------------------------------------

/// Reading the root name at `p`: a length within `max_string_len`, then UTF-8.
pub open spec fn sp_root_name(enc: EncodingKind, cfg: NbtReadConfig, s: Seq<u8>, p: usize) -> Step<Seq<char>> {
    match ctx(sp_string_len(enc, s, p), "read_string_len", p, "root_name") {
        Err(e) => Err(e),
        Ok((len, q)) => if len > cfg.limits.max_string_len {
            Err(
                (
                    wrap(
                        Error::SizeExceeded {
                            field: "root_name_length",
                            max: cfg.limits.max_string_len,
                            actual: len,
                        },
                        "validate_size",
                        p,
                        Some("root_name_length"),
                    ),
                    q,
                ),
            )
        } else {
            match ctx(sp_take(s, q, len), "read_exact", p, "root_name") {
                Err(e) => Err(e),
                Ok((b, q2)) => if valid_utf8(b) {
                    Ok((decode_utf8(b), q2))
                } else {
                    Err((wrap(Error::InvalidUtf8 { field: "root_name" }, "decode_utf8", p, Some("root_name")), q2))
                },
            }
        },
    }
}

/// Reading a root value: type id, name, payload, with no header.
pub open spec fn sp_root(enc: EncodingKind, cfg: NbtReadConfig, s: Seq<u8>) -> Step<(Seq<char>, TagView)> {
    match sp_byte(s, 0, "root_tag_type") {
        Err(e) => Err(e),
        Ok((id, _)) => match decode_type_id(id) {
            Err(e) => Err((wrap(e, "decode_tag_type", 0, Some("root_tag_type")), 1)),
            Ok(t) => if !valid_root_type(t, cfg.parse_mode) {
                Err((wrap(Error::InvalidRoot { id }, "validate_root_tag_type", 0, Some("root_tag_type")), 1))
            } else {
                match sp_root_name(enc, cfg, s, 1) {
                    Err(e) => Err(e),
                    Ok((name, q)) => match sp_read_payload(enc, cfg, s.subrange(q as int, s.len() as int), t) {
                        Ok((v, n)) => Ok(((name, v), (q + n) as usize)),
                        Err((e, c)) => Err(
                            (wrap(e, "read_root_payload", 1, Some("root_payload")), (q + c) as usize),
                        ),
                    },
                }
            },
        },
    }
}

/// Reading a root value from a payload of `len` bytes that starts at offset 8,
/// every byte of which the root must use.
pub open spec fn sp_sized_root(enc: EncodingKind, cfg: NbtReadConfig, s: Seq<u8>, field: &'static str) -> Step<(Seq<char>, TagView)> {
    match ctx(sp_u32(EncodingKind::LittleEndian, s, 4), "read_exact", 4, field) {
        Err(e) => Err(e),
        Ok((len32, _)) => {
            let len = len32 as usize;
            if len > cfg.limits.max_read_bytes {
                Err(
                    (
                        wrap(
                            Error::SizeExceeded {
                                field: "header_payload_length",
                                max: cfg.limits.max_read_bytes,
                                actual: len,
                            },
                            "validate_size",
                            4,
                            Some("header_payload_length"),
                        ),
                        8,
                    ),
                )
            } else {
                match ctx(sp_take(s, 8, len), "read_exact", 8, "header_payload") {
                    Err(e) => Err(e),
                    Ok((payload, end)) => match sp_root(enc, cfg, payload) {
                        Err((e, _)) => Err(
                            (wrap(e, "read_header_payload_root", 8, Some("root_payload")), end),
                        ),
                        Ok((root, consumed)) => if consumed < len {
                            Err(
                                (
                                    wrap(
                                        Error::TrailingPayloadBytes { unread: (len - consumed) as usize },
                                        "validate_payload_consumed",
                                        (8 + consumed) as usize,
                                        Some("header_payload"),
                                    ),
                                    end,
                                ),
                            )
                        } else {
                            Ok((root, end))
                        },
                    },
                }
            }
        },
    }
}

/// Reading a root value behind the header that `mode` names.
pub open spec fn sp_header_root(enc: EncodingKind, cfg: NbtReadConfig, s: Seq<u8>, mode: HeaderReadMode) -> Step<(Seq<char>, TagView)> {
    match mode {
        HeaderReadMode::NoHeader => sp_root(enc, cfg, s),
        HeaderReadMode::BedrockFileHeader => match ctx(
            sp_u32(EncodingKind::LittleEndian, s, 0),
            "read_exact",
            0,
            "bedrock_header_magic",
        ) {
            Err(e) => Err(e),
            Ok((magic, _)) => if magic != BEDROCK_FILE_HEADER_MAGIC {
                Err(
                    (
                        wrap(
                            Error::InvalidHeader {
                                detail: "bedrock_header_magic_mismatch",
                                expected: Some(BEDROCK_FILE_HEADER_MAGIC),
                                actual: Some(magic),
                            },
                            "validate_header_magic",
                            0,
                            Some("bedrock_header_magic"),
                        ),
                        4,
                    ),
                )
            } else {
                sp_sized_root(enc, cfg, s, "bedrock_header_payload_length")
            },
        },
        HeaderReadMode::LevelDatHeader => match ctx(
            sp_u32(EncodingKind::LittleEndian, s, 0),
            "read_exact",
            0,
            "leveldat_storage_version",
        ) {
            Err(e) => Err(e),
            Ok(_) => sp_sized_root(enc, cfg, s, "leveldat_payload_length"),
        },
    }
}

/// The bytes of a root value: type id, name, payload.
pub open spec fn enc_root(enc: EncodingKind, root: (Seq<char>, TagView)) -> std::result::Result<Seq<u8>, Error> {
    let t = view_type(root.1);
    if !valid_root_type(t, ParseMode::Strict) {
        Err(wrap(Error::InvalidRoot { id: type_id(t) }, "validate_root_tag_type", 0, Some("root_tag_type")))
    } else {
        match enc_string(enc, root.0) {
            Err(e) => Err(e),
            Ok(nb) => prefix_then(seq![type_id(t)] + nb, enc_payload(enc, root.1)),
        }
    }
}

/// The bytes of a root value behind the header that `mode` names.
pub open spec fn enc_header_root(enc: EncodingKind, root: (Seq<char>, TagView), mode: HeaderWriteMode) -> std::result::Result<Seq<u8>, Error> {
    match mode {
        HeaderWriteMode::NoHeader => enc_root(enc, root),
        HeaderWriteMode::BedrockFileHeader => enc_sized(enc_root(enc, root), BEDROCK_FILE_HEADER_MAGIC),
        HeaderWriteMode::LevelDatHeader { storage_version } => enc_sized(enc_root(enc, root), storage_version),
    }
}

/// A 32-bit little-endian word, a 32-bit little-endian length, then the payload.
pub open spec fn enc_sized(payload: std::result::Result<Seq<u8>, Error>, word: u32) -> std::result::Result<Seq<u8>, Error> {
    match payload {
        Err(e) => Err(e),
        Ok(p) => if p.len() > u32::MAX {
            Err(Error::LengthOverflow { field: "header_payload_length", max: u32::MAX as usize, actual: p.len() as usize })
        } else {
            Ok(
                fixed_bytes(EncodingKind::LittleEndian, word as nat, 4) + fixed_bytes(
                    EncodingKind::LittleEndian,
                    p.len(),
                    4,
                ) + p,
            )
        },
    }
}

// ---------------------------------------------------------------------------
// Reading
// ---------------------------------------------------------------------------

fn root_name_at(enc: EncodingKind, cfg: NbtReadConfig, s: &[u8], p: usize) -> (r: Step<String>)
    requires
        p <= s@.len(),
    ensures
        step_view(r) == sp_root_name(enc, cfg, s@, p),
        r matches Ok((_, q)) ==> p < q <= s@.len(),
        r matches Err((_, c)) ==> c <= s@.len(),
{
    let (len, q) = match read_string_len_at(enc, s, p) {
        Ok(x) => x,
        Err((e, c)) => {
            return Err((e.with_context("read_string_len", p, Some("root_name")), c));
        },
    };
    if len > cfg.limits.max_string_len {
        return Err(
            (
                Error::SizeExceeded {
                    field: "root_name_length",
                    max: cfg.limits.max_string_len,
                    actual: len,
                }.with_context("validate_size", p, Some("root_name_length")),
                q,
            ),
        );
    }
    if len > s.len() - q {
        return Err(
            (Error::Io(IoErrorKind::UnexpectedEof).with_context("read_exact", p, Some("root_name")), s.len()),
        );
    }
    let bytes = &s[q..q + len];
    match utf8_to_str(bytes) {
        Some(text) => Ok((text.to_owned(), q + len)),
        None => Err(
            (
                Error::InvalidUtf8 { field: "root_name" }.with_context("decode_utf8", p, Some("root_name")),
                q + len,
            ),
        ),
    }
}

/// Reads a root value with no header from the start of `s`.
pub(crate) fn root_at(enc: EncodingKind, cfg: NbtReadConfig, s: &[u8]) -> (r: Step<RootTag>)
    ensures
        step_view(r) == sp_root(enc, cfg, s@),
        r matches Ok((_, q)) ==> q <= s@.len(),
        r matches Err((_, c)) ==> c <= s@.len(),
{
    let id = match byte_at(s, 0, "root_tag_type") {
        Ok((b, _)) => b,
        Err(e) => return Err(e),
    };
    let tag_type = match TagType::from_id(id) {
        Ok(t) => t,
        Err(e) => return Err((e.with_context("decode_tag_type", 0, Some("root_tag_type")), 1)),
    };
    if !is_valid_root_tag_type(tag_type, cfg.parse_mode) {
        return Err(
            (
                Error::InvalidRoot { id }.with_context("validate_root_tag_type", 0, Some("root_tag_type")),
                1,
            ),
        );
    }
    let (name, q) = match root_name_at(enc, cfg, s, 1) {
        Ok(x) => x,
        Err(e) => return Err(e),
    };
    let rest = &s[q..s.len()];
    match payload_at(enc, cfg, rest, tag_type) {
        Ok((payload, n)) => Ok((RootTag { name, payload }, q + n)),
        Err((e, c)) => Err((e.with_context("read_root_payload", 1, Some("root_payload")), q + c)),
    }
}

fn u32_le_at(s: &[u8], p: usize, field: &'static str) -> (r: Step<u32>)
    requires
        p <= s@.len(),
    ensures
        r == ctx(sp_u32(EncodingKind::LittleEndian, s@, p), "read_exact", p, field),
        r matches Ok((_, q)) ==> p < q <= s@.len(),
        r matches Err((_, c)) ==> c <= s@.len(),
{
    match read_u32_at(EncodingKind::LittleEndian, s, p) {
        Ok(x) => Ok(x),
        Err((e, c)) => Err((e.with_context("read_exact", p, Some(field)), c)),
    }
}

fn sized_root_at(enc: EncodingKind, cfg: NbtReadConfig, s: &[u8], field: &'static str) -> (r: Step<RootTag>)
    requires
        4 <= s@.len(),
    ensures
        step_view(r) == sp_sized_root(enc, cfg, s@, field),
        r matches Ok((_, q)) ==> q <= s@.len(),
        r matches Err((_, c)) ==> c <= s@.len(),
{
    let len = match u32_le_at(s, 4, field) {
        Ok((v, _)) => v as usize,
        Err(e) => return Err(e),
    };
    if len > cfg.limits.max_read_bytes {
        return Err(
            (
                Error::SizeExceeded {
                    field: "header_payload_length",
                    max: cfg.limits.max_read_bytes,
                    actual: len,
                }.with_context("validate_size", 4, Some("header_payload_length")),
                8,
            ),
        );
    }
    if len > s.len() - 8 {
        return Err(
            (Error::Io(IoErrorKind::UnexpectedEof).with_context("read_exact", 8, Some("header_payload")), s.len()),
        );
    }
    let end = 8 + len;
    let payload = &s[8..end];
    match root_at(enc, cfg, payload) {
        Err((e, _)) => Err((e.with_context("read_header_payload_root", 8, Some("root_payload")), end)),
        Ok((root, consumed)) => {
            if consumed < len {
                Err(
                    (
                        Error::TrailingPayloadBytes { unread: len - consumed }.with_context(
                            "validate_payload_consumed",
                            8 + consumed,
                            Some("header_payload"),
                        ),
                        end,
                    ),
                )
            } else {
                Ok((root, end))
            }
        },
    }
}

/// Reads a root value behind the header that `mode` names, from the start of `s`.
pub(crate) fn header_root_at(enc: EncodingKind, cfg: NbtReadConfig, s: &[u8], mode: HeaderReadMode) -> (r: Step<RootTag>)
    ensures
        step_view(r) == sp_header_root(enc, cfg, s@, mode),
        r matches Ok((_, q)) ==> q <= s@.len(),
        r matches Err((_, c)) ==> c <= s@.len(),
{
    match mode {
        HeaderReadMode::NoHeader => root_at(enc, cfg, s),
        HeaderReadMode::BedrockFileHeader => {
            let magic = match u32_le_at(s, 0, "bedrock_header_magic") {
                Ok((v, _)) => v,
                Err(e) => return Err(e),
            };
            if magic != BEDROCK_FILE_HEADER_MAGIC {
                return Err(
                    (
                        Error::InvalidHeader {
                            detail: "bedrock_header_magic_mismatch",
                            expected: Some(BEDROCK_FILE_HEADER_MAGIC),
                            actual: Some(magic),
                        }.with_context("validate_header_magic", 0, Some("bedrock_header_magic")),
                        4,
                    ),
                );
            }
            sized_root_at(enc, cfg, s, "bedrock_header_payload_length")
        },
        HeaderReadMode::LevelDatHeader => {
            match u32_le_at(s, 0, "leveldat_storage_version") {
                Ok(_) => {},
                Err(e) => return Err(e),
            }
            sized_root_at(enc, cfg, s, "leveldat_payload_length")
        },
    }
}

/// Reads a root value (type id, name, payload) under the default configuration.
pub fn read_tag<E: Encoding>(reader: &mut ByteReader) -> (r: Result<RootTag>)
    ensures
        reads_as(*old(reader), *final(reader), r, sp_root(E::spec_kind(), default_config(), old(reader).rest())),
{
    read_tag_with_config::<E>(reader, &NbtReadConfig::default())
}

/// Reads a root tag with limits and the strict mode.
pub fn read_tag_with_limits<E: Encoding>(reader: &mut ByteReader, limits: &NbtLimits) -> (r: Result<RootTag>)
    ensures
        reads_as(
            *old(reader),
            *final(reader),
            r,
            sp_root(
                E::spec_kind(),
                NbtReadConfig { limits: *limits, parse_mode: ParseMode::Strict },
                old(reader).rest(),
            ),
        ),
{
    read_tag_with_config::<E>(reader, &NbtReadConfig::strict(*limits))
}

/// Reads a root tag with the given configuration.
pub fn read_tag_with_config<E: Encoding>(reader: &mut ByteReader, config: &NbtReadConfig) -> (r: Result<RootTag>)
    ensures
        reads_as(*old(reader), *final(reader), r, sp_root(E::spec_kind(), *config, old(reader).rest())),
{
    let res = root_at(E::kind(), *config, reader.remaining_slice());
    reader.settle(res)
}

/// Reads a root tag after the header that the mode names.
pub fn read_with_header_mode<E: Encoding>(reader: &mut ByteReader, mode: HeaderReadMode) -> (r: Result<RootTag>)
    ensures
        reads_as(
            *old(reader),
            *final(reader),
            r,
            sp_header_root(E::spec_kind(), default_config(), old(reader).rest(), mode),
        ),
{
    read_with_header_mode_with_config::<E>(reader, mode, &NbtReadConfig::default())
}

/// Reads a root tag after the header that the mode names, with limits and the strict mode.
pub fn read_with_header_mode_with_limits<E: Encoding>(
    reader: &mut ByteReader,
    mode: HeaderReadMode,
    limits: &NbtLimits,
) -> (r: Result<RootTag>)
    ensures
        reads_as(
            *old(reader),
            *final(reader),
            r,
            sp_header_root(
                E::spec_kind(),
                NbtReadConfig { limits: *limits, parse_mode: ParseMode::Strict },
                old(reader).rest(),
                mode,
            ),
        ),
{
    read_with_header_mode_with_config::<E>(reader, mode, &NbtReadConfig::strict(*limits))
}

/// Reads a root tag after the header that the mode names, with the given configuration.
pub fn read_with_header_mode_with_config<E: Encoding>(
    reader: &mut ByteReader,
    mode: HeaderReadMode,
    config: &NbtReadConfig,
) -> (r: Result<RootTag>)
    ensures
        reads_as(
            *old(reader),
            *final(reader),
            r,
            sp_header_root(E::spec_kind(), *config, old(reader).rest(), mode),
        ),
{
    let res = header_root_at(E::kind(), *config, reader.remaining_slice(), mode);
    reader.settle(res)
}

// ---------------------------------------------------------------------------
// Writing
// ---------------------------------------------------------------------------

/// Appends a root value: type id, name, payload. A root type other than list or
/// compound is refused before any byte is written; on another failure, what was
/// appended before it stays.
pub fn write_tag<E: Encoding>(writer: &mut Vec<u8>, root: &RootTag) -> (r: Result<()>)
    ensures
        match enc_root(E::spec_kind(), root@) {
            Ok(b) => r is Ok && final(writer)@ == old(writer)@ + b,
            Err(e) => r == Err::<(), Error>(e) && extends(old(writer)@, final(writer)@),
        },
        !valid_root_type(view_type(root@.1), ParseMode::Strict) ==> final(writer)@ == old(writer)@,
{
    let tag_type = root.payload.tag_type();
    if !is_valid_root_tag_type(tag_type, ParseMode::Strict) {
        assert(writer@.subrange(0, writer@.len() as int) =~= writer@);
        return Err(
            Error::InvalidRoot { id: tag_type.id() }.with_context(
                "validate_root_tag_type",
                0,
                Some("root_tag_type"),
            ),
        );
    }
    writer.push(tag_type.id());
    let ghost with_id = writer@;
    assert(with_id.subrange(0, old(writer)@.len() as int) =~= old(writer)@);
    match write_string_to(E::kind(), writer, root.name.as_str()) {
        Ok(()) => {},
        Err(e) => {
            return Err(e);
        },
    }
    let ghost with_name = writer@;
    let r = write_payload::<E>(writer, &root.payload);
    proof {
        if r is Ok {
            assert(writer@ =~= old(writer)@ + enc_root(E::spec_kind(), root@)->Ok_0);
        } else {
            assert(writer@.subrange(0, with_name.len() as int) == with_name);
            assert(writer@.subrange(0, old(writer)@.len() as int) =~= with_name.subrange(0, old(writer)@.len() as int));
            assert(with_name.subrange(0, old(writer)@.len() as int) =~= old(writer)@);
        }
    }
    r
}

fn encode_root_payload<E: Encoding>(root: &RootTag) -> (r: Result<Vec<u8>>)
    ensures
        match enc_root(E::spec_kind(), root@) {
            Ok(b) => r matches Ok(out) && out@ == b,
            Err(e) => r == Err::<Vec<u8>, Error>(e),
        },
{
    let mut payload: Vec<u8> = Vec::new();
    match write_tag::<E>(&mut payload, root) {
        Ok(()) => {
            assert(payload@ =~= enc_root(E::spec_kind(), root@)->Ok_0);
            Ok(payload)
        },
        Err(e) => Err(e),
    }
}

fn payload_len_u32(payload_len: usize) -> (r: Result<u32>)
    ensures
        payload_len <= u32::MAX ==> r == Ok::<u32, Error>(payload_len as u32),
        payload_len > u32::MAX ==> r == Err::<u32, Error>(
            Error::LengthOverflow { field: "header_payload_length", max: u32::MAX as usize, actual: payload_len },
        ),
{
    if payload_len > 0xffff_ffff {
        Err(Error::LengthOverflow { field: "header_payload_length", max: 0xffff_ffff, actual: payload_len })
    } else {
        Ok(payload_len as u32)
    }
}

fn write_sized<E: Encoding>(writer: &mut Vec<u8>, root: &RootTag, word: u32) -> (r: Result<()>)
    ensures
        match enc_sized(enc_root(E::spec_kind(), root@), word) {
            Ok(b) => r is Ok && final(writer)@ == old(writer)@ + b,
            Err(e) => r == Err::<(), Error>(e) && extends(old(writer)@, final(writer)@),
        },
        enc_root(E::spec_kind(), root@) is Err ==> final(writer)@ == old(writer)@,
{
    let payload = match encode_root_payload::<E>(root) {
        Ok(p) => p,
        Err(e) => {
            assert(writer@.subrange(0, writer@.len() as int) =~= writer@);
            return Err(e);
        },
    };
    write_u32_to(EncodingKind::LittleEndian, writer, word);
    let ghost with_word = writer@;
    assert(with_word.subrange(0, old(writer)@.len() as int) =~= old(writer)@);
    let len = match payload_len_u32(payload.len()) {
        Ok(n) => n,
        Err(e) => return Err(e),
    };
    write_u32_to(EncodingKind::LittleEndian, writer, len);
    let ghost mid = writer@;
    crate::encoding::append_bytes(writer, payload.as_slice());
    assert(writer@ =~= old(writer)@ + enc_sized(enc_root(E::spec_kind(), root@), word)->Ok_0);
    Ok(())
}

/// Appends a root value behind the header that `mode` names. Behind a header the
/// root is encoded first, so a root that cannot be written leaves the writer as it
/// was; with no header, as `write_tag`.
pub fn write_with_header_mode<E: Encoding>(writer: &mut Vec<u8>, root: &RootTag, mode: HeaderWriteMode) -> (r: Result<()>)
    ensures
        match enc_header_root(E::spec_kind(), root@, mode) {
            Ok(b) => r is Ok && final(writer)@ == old(writer)@ + b,
            Err(e) => r == Err::<(), Error>(e) && extends(old(writer)@, final(writer)@),
        },
        !valid_root_type(view_type(root@.1), ParseMode::Strict) ==> final(writer)@ == old(writer)@,
        !(mode is NoHeader) && enc_root(E::spec_kind(), root@) is Err ==> final(writer)@ == old(writer)@,
{
    match mode {
        HeaderWriteMode::NoHeader => write_tag::<E>(writer, root),
        HeaderWriteMode::BedrockFileHeader => write_sized::<E>(writer, root, BEDROCK_FILE_HEADER_MAGIC),
        HeaderWriteMode::LevelDatHeader { storage_version } => write_sized::<E>(writer, root, storage_version),
    }
}

} // verus!
