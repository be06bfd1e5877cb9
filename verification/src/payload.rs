use crate::config::{NbtReadConfig, ParseMode};
use crate::encoding::{
    enc_list_len, write_i16_to, write_i32_to, write_i64_to, write_list_len_to, write_string_len_to,
    write_u32_to, write_u64_to, Encoding, append_bytes, read_i16_at, read_i32_at, read_i64_at, read_list_len_at, read_string_len_at,
    read_u32_at, read_u64_at, sp_i32, EncodingKind, Step,
};
use crate::error::{Error, IoErrorKind, Result};
use crate::payload_spec::{
    enc_elems_from, enc_entries_from, enc_i32s, enc_i64s, enc_len_i32, enc_payload, enc_string,
    has_end_member, prefix_then, refused_up_front, sp_read_payload, window, ctx,
 sp_array_bytes, sp_budget, sp_byte_array, sp_compound_from, sp_elems_from, sp_i32s_from,
    sp_i64s_from, sp_int_array, sp_len_i32, sp_limit, sp_list, sp_long_array, sp_payload,
    sp_string, sp_tag_type,
};
use crate::tag::{
    list_type_error,
    lemma_compound_view, lemma_entries_view, lemma_tags_view, tag_view, type_id, view_type,
    lemma_tags_view_push, tags_view, CompoundTag, ListTag, Tag, TagType, TagView,
};
use crate::text::utf8_to_str;
use crate::reader::{reads_as, step_view, ByteReader};
use crate::limits::NbtLimits;
use crate::config::default_config;
use vstd::prelude::*;

verus! {

broadcast use vstd::seq::group_seq_axioms;

/// The number of bytes of `count` elements of `elem_size` bytes; `LengthOverflow` when
/// that does not fit a `usize`.
pub fn checked_len_to_bytes(count: usize, elem_size: usize, field: &'static str) -> (r: Result<usize>)
    ensures
        count * elem_size <= usize::MAX ==> r == Ok::<usize, Error>((count * elem_size) as usize),
        count * elem_size > usize::MAX ==> r == Err::<usize, Error>(
            Error::LengthOverflow { field, max: usize::MAX, actual: count },
        ),
{
    if elem_size != 0 && count > usize::MAX / elem_size {
        assert(count * elem_size > usize::MAX) by (nonlinear_arith)
            requires
                elem_size != 0,
                count > usize::MAX / elem_size,
        ;
        Err(Error::LengthOverflow { field, max: usize::MAX, actual: count })
    } else {
        assert(count * elem_size <= usize::MAX) by (nonlinear_arith)
            requires
                elem_size == 0 || count <= usize::MAX / elem_size,
        ;
        Ok(count * elem_size)
    }
}

fn read_tag_type_at(s: &[u8], p: usize) -> (r: Step<TagType>)
    requires
        p <= s@.len(),
    ensures
        r == sp_tag_type(s@, p),
        r matches Ok((_, q)) ==> q == p + 1 && q <= s@.len(),
        r matches Err((_, c)) ==> c <= s@.len(),
{
    if 1 > s.len() - p {
        return Err(
            (
                Error::Io(IoErrorKind::UnexpectedEof).with_context("read_exact", p, Some("tag_type_id")),
                s.len(),
            ),
        );
    }
    let id = s[p];
    assert(s@.subrange(p as int, p + 1)[0] == id);
    match TagType::from_id(id) {
        Ok(t) => Ok((t, p + 1)),
        Err(e) => Err((e.with_context("decode_tag_type", p, Some("tag_type_id")), p + 1)),
    }
}

fn read_string_at(enc: EncodingKind, cfg: NbtReadConfig, s: &[u8], p: usize) -> (r: Step<String>)
    requires
        p <= s@.len(),
        s@.len() <= cfg.limits.max_read_bytes,
    ensures
        step_view(r) == sp_string(enc, cfg, s@, p),
        r matches Ok((_, q)) ==> p < q <= s@.len(),
        r matches Err((_, c)) ==> c <= s@.len(),
{
    let (len, q) = match read_string_len_at(enc, s, p) {
        Ok(x) => x,
        Err((e, c)) => {
            return Err((e.with_context("read_string_len", p, Some("string_length")), c));
        },
    };
    if len > cfg.limits.max_string_len {
        return Err(
            (
                Error::SizeExceeded {
                    field: "string_length",
                    max: cfg.limits.max_string_len,
                    actual: len,
                }.with_context("validate_size", q, Some("string_length")),
                q,
            ),
        );
    }
    if len > cfg.limits.max_read_bytes - q {
        return Err(
            (
                Error::SizeExceeded {
                    field: "string_bytes",
                    max: cfg.limits.max_read_bytes - q,
                    actual: len,
                }.with_context("ensure_can_read", q, Some("string_bytes")),
                q,
            ),
        );
    }
    if len > s.len() - q {
        return Err(
            (
                Error::Io(IoErrorKind::UnexpectedEof).with_context("read_exact", q, Some("string_bytes")),
                s.len(),
            ),
        );
    }
    let bytes = &s[q..q + len];
    match utf8_to_str(bytes) {
        Some(text) => Ok((text.to_owned(), q + len)),
        None => Err(
            (
                Error::InvalidUtf8 { field: "string_payload" }.with_context(
                    "decode_utf8",
                    q,
                    Some("string_payload"),
                ),
                q + len,
            ),
        ),
    }
}

fn read_len_i32_at(enc: EncodingKind, s: &[u8], p: usize, field: &'static str) -> (r: Step<usize>)
    requires
        p <= s@.len(),
    ensures
        r == sp_len_i32(enc, s@, p, field),
        r matches Ok((_, q)) ==> p < q <= s@.len(),
        r matches Err((_, c)) ==> c <= s@.len(),
{
    match read_i32_at(enc, s, p) {
        Err((e, c)) => Err((e.with_context("read_i32", p, Some(field)), c)),
        Ok((v, q)) => {
            if v < 0 {
                Err(
                    (
                        Error::NegativeLength { field, value: v }.with_context(
                            "validate_non_negative_length",
                            p,
                            Some(field),
                        ),
                        q,
                    ),
                )
            } else {
                Ok((v as usize, q))
            }
        },
    }
}

fn parse_byte_array(enc: EncodingKind, cfg: NbtReadConfig, s: &[u8], p: usize) -> (r: Step<Tag>)
    requires
        p <= s@.len(),
        s@.len() <= cfg.limits.max_read_bytes,
    ensures
        step_view(r) == sp_byte_array(cfg, enc, s@, p),
        r matches Ok((_, q)) ==> p < q <= s@.len(),
        r matches Err((_, c)) ==> c <= s@.len(),
{
    let (len, q) = match read_len_i32_at(enc, s, p, "byte_array_length") {
        Ok(x) => x,
        Err(e) => return Err(e),
    };
    if len > cfg.limits.max_array_len {
        return Err(
            (
                Error::SizeExceeded {
                    field: "byte_array_length",
                    max: cfg.limits.max_array_len,
                    actual: len,
                }.with_context("validate_size", q, Some("byte_array_length")),
                q,
            ),
        );
    }
    if len > cfg.limits.max_read_bytes - q {
        return Err(
            (
                Error::SizeExceeded {
                    field: "byte_array_bytes",
                    max: cfg.limits.max_read_bytes - q,
                    actual: len,
                }.with_context("ensure_can_read", q, Some("byte_array_bytes")),
                q,
            ),
        );
    }
    if len > s.len() - q {
        return Err(
            (
                Error::Io(IoErrorKind::UnexpectedEof).with_context("read_exact", q, Some("byte_array_bytes")),
                s.len(),
            ),
        );
    }
    let mut bytes: Vec<u8> = Vec::new();
    append_bytes(&mut bytes, &s[q..q + len]);
    Ok((Tag::ByteArray(bytes), q + len))
}

fn parse_int_array(enc: EncodingKind, cfg: NbtReadConfig, s: &[u8], p: usize) -> (r: Step<Tag>)
    requires
        p <= s@.len(),
        s@.len() <= cfg.limits.max_read_bytes,
    ensures
        step_view(r) == sp_int_array(enc, cfg, s@, p),
        r matches Ok((_, q)) ==> p < q <= s@.len(),
        r matches Err((_, c)) ==> c <= s@.len(),
{
    let (len, q) = match read_len_i32_at(enc, s, p, "int_array_length") {
        Ok(x) => x,
        Err(e) => return Err(e),
    };
    if len > cfg.limits.max_array_len {
        return Err(
            (
                Error::SizeExceeded {
                    field: "int_array_length",
                    max: cfg.limits.max_array_len,
                    actual: len,
                }.with_context("validate_size", q, Some("int_array_length")),
                q,
            ),
        );
    }
    let nbytes = match checked_len_to_bytes(len, 4, "int_array_bytes") {
        Ok(n) => n,
        Err(e) => return Err((e, q)),
    };
    if nbytes > cfg.limits.max_read_bytes - q {
        return Err(
            (
                Error::SizeExceeded {
                    field: "int_array_bytes",
                    max: cfg.limits.max_read_bytes - q,
                    actual: nbytes,
                }.with_context("ensure_can_read", q, Some("int_array_bytes")),
                q,
            ),
        );
    }
    let mut values: Vec<i32> = Vec::new();
    let mut i: usize = 0;
    let mut pos = q;
    while i < len
        invariant
            q <= pos <= s@.len(),
            i <= len,
            sp_int_array(enc, cfg, s@, p) == match sp_i32s_from(enc, s@, q, 0, len as nat, Seq::empty()) {
                Ok((xs, q2)) => Ok((TagView::IntArray(xs), q2)),
                Err(e) => Err(e),
            },
            sp_i32s_from(enc, s@, q, 0, len as nat, Seq::empty()) == sp_i32s_from(
                enc,
                s@,
                pos,
                i as nat,
                len as nat,
                values@,
            ),
        decreases len - i,
    {
        match read_i32_at(enc, s, pos) {
            Ok((v, q2)) => {
                values.push(v);
                pos = q2;
            },
            Err((e, c)) => {
                return Err((e.with_context("read_i32", pos, Some("int_array_value")), c));
            },
        }
        i = i + 1;
    }
    Ok((Tag::IntArray(values), pos))
}

fn parse_long_array(enc: EncodingKind, cfg: NbtReadConfig, s: &[u8], p: usize) -> (r: Step<Tag>)
    requires
        p <= s@.len(),
        s@.len() <= cfg.limits.max_read_bytes,
    ensures
        step_view(r) == sp_long_array(enc, cfg, s@, p),
        r matches Ok((_, q)) ==> p < q <= s@.len(),
        r matches Err((_, c)) ==> c <= s@.len(),
{
    let (len, q) = match read_len_i32_at(enc, s, p, "long_array_length") {
        Ok(x) => x,
        Err(e) => return Err(e),
    };
    if len > cfg.limits.max_array_len {
        return Err(
            (
                Error::SizeExceeded {
                    field: "long_array_length",
                    max: cfg.limits.max_array_len,
                    actual: len,
                }.with_context("validate_size", q, Some("long_array_length")),
                q,
            ),
        );
    }
    let nbytes = match checked_len_to_bytes(len, 8, "long_array_bytes") {
        Ok(n) => n,
        Err(e) => return Err((e, q)),
    };
    if nbytes > cfg.limits.max_read_bytes - q {
        return Err(
            (
                Error::SizeExceeded {
                    field: "long_array_bytes",
                    max: cfg.limits.max_read_bytes - q,
                    actual: nbytes,
                }.with_context("ensure_can_read", q, Some("long_array_bytes")),
                q,
            ),
        );
    }
    let mut values: Vec<i64> = Vec::new();
    let mut i: usize = 0;
    let mut pos = q;
    while i < len
        invariant
            q <= pos <= s@.len(),
            i <= len,
            sp_long_array(enc, cfg, s@, p) == match sp_i64s_from(enc, s@, q, 0, len as nat, Seq::empty()) {
                Ok((xs, q2)) => Ok((TagView::LongArray(xs), q2)),
                Err(e) => Err(e),
            },
            sp_i64s_from(enc, s@, q, 0, len as nat, Seq::empty()) == sp_i64s_from(
                enc,
                s@,
                pos,
                i as nat,
                len as nat,
                values@,
            ),
        decreases len - i,
    {
        match read_i64_at(enc, s, pos) {
            Ok((v, q2)) => {
                values.push(v);
                pos = q2;
            },
            Err((e, c)) => {
                return Err((e.with_context("read_i64", pos, Some("long_array_value")), c));
            },
        }
        i = i + 1;
    }
    Ok((Tag::LongArray(values), pos))
}


pub(crate) fn parse_payload(
    enc: EncodingKind,
    cfg: NbtReadConfig,
    s: &[u8],
    p: usize,
    ty: TagType,
    depth: usize,
) -> (r: Step<Tag>)
    requires
        p <= s@.len(),
        s@.len() <= cfg.limits.max_read_bytes,
        1 <= depth <= p + 1,
        depth <= cfg.limits.max_depth + 1,
    ensures
        step_view(r) == sp_payload(enc, cfg, s@, p, ty, depth as nat),
        r matches Ok((_, q)) ==> p < q <= s@.len(),
        r matches Err((_, c)) ==> c <= s@.len(),
    decreases cfg.limits.max_depth + 1 - depth, 3int,
{
    if depth > cfg.limits.max_depth {
        return Err(
            (
                Error::DepthExceeded { depth, max_depth: cfg.limits.max_depth }.with_context(
                    "check_depth",
                    p,
                    Some("max_depth"),
                ),
                p,
            ),
        );
    }
    match ty {
        TagType::End => Err((Error::UnexpectedEndTagPayload, p)),
        TagType::Byte => {
            if 1 > s.len() - p {
                Err(
                    (
                        Error::Io(IoErrorKind::UnexpectedEof).with_context("read_exact", p, Some("i8_value")),
                        s.len(),
                    ),
                )
            } else {
                assert(s@.subrange(p as int, p + 1)[0] == s@[p as int]);
                Ok((Tag::Byte(s[p] as i8), p + 1))
            }
        },
        TagType::Short => match read_i16_at(enc, s, p) {
            Ok((v, q)) => Ok((Tag::Short(v), q)),
            Err((e, c)) => Err((e.with_context("read_i16", p, Some("short_payload")), c)),
        },
        TagType::Int => match read_i32_at(enc, s, p) {
            Ok((v, q)) => Ok((Tag::Int(v), q)),
            Err((e, c)) => Err((e.with_context("read_i32", p, Some("int_payload")), c)),
        },
        TagType::Long => match read_i64_at(enc, s, p) {
            Ok((v, q)) => Ok((Tag::Long(v), q)),
            Err((e, c)) => Err((e.with_context("read_i64", p, Some("long_payload")), c)),
        },
        TagType::Float => match read_u32_at(enc, s, p) {
            Ok((v, q)) => Ok((Tag::Float(v), q)),
            Err((e, c)) => Err((e.with_context("read_f32", p, Some("float_payload")), c)),
        },
        TagType::Double => match read_u64_at(enc, s, p) {
            Ok((v, q)) => Ok((Tag::Double(v), q)),
            Err((e, c)) => Err((e.with_context("read_f64", p, Some("double_payload")), c)),
        },
        TagType::ByteArray => parse_byte_array(enc, cfg, s, p),
        TagType::String => match read_string_at(enc, cfg, s, p) {
            Ok((v, q)) => Ok((Tag::String(v), q)),
            Err(e) => Err(e),
        },
        TagType::List => parse_list(enc, cfg, s, p, depth),
        TagType::Compound => parse_compound(enc, cfg, s, p, depth),
        TagType::IntArray => parse_int_array(enc, cfg, s, p),
        TagType::LongArray => parse_long_array(enc, cfg, s, p),
    }
}

fn parse_list(enc: EncodingKind, cfg: NbtReadConfig, s: &[u8], p: usize, depth: usize) -> (r: Step<Tag>)
    requires
        p <= s@.len(),
        s@.len() <= cfg.limits.max_read_bytes,
        1 <= depth <= p + 1,
        depth <= cfg.limits.max_depth,
    ensures
        step_view(r) == sp_list(enc, cfg, s@, p, depth as nat),
        r matches Ok((_, q)) ==> p < q <= s@.len(),
        r matches Err((_, c)) ==> c <= s@.len(),
    decreases cfg.limits.max_depth + 1 - depth, 2int,
{
    let (et, p1) = match read_tag_type_at(s, p) {
        Ok(x) => x,
        Err(e) => return Err(e),
    };
    let (len, q) = match read_list_len_at(enc, s, p1) {
        Ok(x) => x,
        Err((e, c)) => return Err((e.with_context("read_list_len", p1, Some("list_length")), c)),
    };
    if len > cfg.limits.max_list_len {
        return Err(
            (
                Error::SizeExceeded {
                    field: "list_length",
                    max: cfg.limits.max_list_len,
                    actual: len,
                }.with_context("validate_size", q, Some("list_length")),
                q,
            ),
        );
    }
    let strict = match cfg.parse_mode {
        ParseMode::Strict => true,
        ParseMode::Compatible => false,
    };
    if et == TagType::End && len > 0 && strict {
        return Err(
            (
                Error::InvalidListHeader { element_type_id: et.id(), length: len }.with_context(
                    "validate_list_header",
                    q,
                    Some("list_length"),
                ),
                q,
            ),
        );
    }
    let n: usize = if et == TagType::End {
        0
    } else {
        len
    };
    let mut elements: Vec<Tag> = Vec::new();
    let mut i: usize = 0;
    let mut pos = q;
    assert(tags_view(elements@) =~= Seq::<TagView>::empty());
    while i < n
        invariant
            p + 2 <= q <= pos <= s@.len(),
            s@.len() <= cfg.limits.max_read_bytes,
            1 <= depth <= p + 1,
            depth <= cfg.limits.max_depth,
            i <= n,
            sp_list(enc, cfg, s@, p, depth as nat) == sp_elems_from(
                enc,
                cfg,
                s@,
                pos,
                et,
                depth as nat,
                i as nat,
                n as nat,
                tags_view(elements@),
            ),
        decreases n - i,
    {
        match parse_payload(enc, cfg, s, pos, et, depth + 1) {
            Ok((t, q2)) => {
                proof {
                    lemma_tags_view_push(elements@, t);
                }
                elements.push(t);
                pos = q2;
            },
            Err(e) => return Err(e),
        }
        i = i + 1;
    }
    Ok((Tag::List(ListTag { element_type: et, elements }), pos))
}

fn parse_compound(enc: EncodingKind, cfg: NbtReadConfig, s: &[u8], p: usize, depth: usize) -> (r: Step<Tag>)
    requires
        p <= s@.len(),
        s@.len() <= cfg.limits.max_read_bytes,
        1 <= depth <= p + 1,
        depth <= cfg.limits.max_depth,
    ensures
        step_view(r) == sp_compound_from(enc, cfg, s@, p, depth as nat, 0, Seq::empty()),
        r matches Ok((_, q)) ==> p < q <= s@.len(),
        r matches Err((_, c)) ==> c <= s@.len(),
    decreases cfg.limits.max_depth + 1 - depth, 2int,
{
    let mut map = CompoundTag::new();
    let mut count: usize = 0;
    let mut pos = p;
    loop
        invariant
            p <= pos <= s@.len(),
            s@.len() <= cfg.limits.max_read_bytes,
            1 <= depth <= p + 1,
            depth <= cfg.limits.max_depth,
            count <= cfg.limits.max_compound_entries,
            count <= pos - p,
            sp_compound_from(enc, cfg, s@, p, depth as nat, 0, Seq::empty()) == sp_compound_from(
                enc,
                cfg,
                s@,
                pos,
                depth as nat,
                count,
                map@,
            ),
        decreases cfg.limits.max_compound_entries - count,
    {
        let (t, q) = match read_tag_type_at(s, pos) {
            Ok(x) => x,
            Err(e) => return Err(e),
        };
        if t == TagType::End {
            return Ok((Tag::Compound(map), q));
        }
        if count >= cfg.limits.max_compound_entries {
            return Err(
                (
                    Error::SizeExceeded {
                        field: "compound_entries",
                        max: cfg.limits.max_compound_entries,
                        actual: count + 1,
                    }.with_context("validate_size", q, Some("compound_entries")),
                    q,
                ),
            );
        }
        let (name, q2) = match read_string_at(enc, cfg, s, q) {
            Ok(x) => x,
            Err(e) => return Err(e),
        };
        let (value, q3) = match parse_payload(enc, cfg, s, q2, t, depth + 1) {
            Ok(x) => x,
            Err(e) => return Err(e),
        };
        map.insert(name, value);
        count = count + 1;
        pos = q3;
    }
}


pub(crate) fn write_string_to(enc: EncodingKind, out: &mut Vec<u8>, text: &str) -> (r: Result<()>)
    ensures
        match enc_string(enc, text@) {
            Ok(b) => r is Ok && final(out)@ == old(out)@ + b,
            Err(e) => r == Err::<(), Error>(e) && final(out)@ == old(out)@,
        },
{
    let bytes = text.as_bytes();
    match write_string_len_to(enc, out, bytes.len()) {
        Ok(()) => {},
        Err(e) => return Err(e),
    }
    append_bytes(out, bytes);
    Ok(())
}

fn write_len_i32_to(enc: EncodingKind, out: &mut Vec<u8>, field: &'static str, len: usize) -> (r: Result<()>)
    ensures
        match enc_len_i32(enc, field, len as nat) {
            Ok(b) => r is Ok && final(out)@ == old(out)@ + b,
            Err(e) => r == Err::<(), Error>(e) && final(out)@ == old(out)@,
        },
{
    if len > 0x7fff_ffff {
        return Err(Error::LengthOverflow { field, max: 0x7fff_ffff, actual: len });
    }
    write_i32_to(enc, out, len as i32);
    Ok(())
}

/// `old` is a prefix of `new`.
pub open spec fn extends(old: Seq<u8>, new: Seq<u8>) -> bool {
    old.len() <= new.len() && new.subrange(0, old.len() as int) == old
}

pub(crate) fn write_payload_to(enc: EncodingKind, out: &mut Vec<u8>, t: &Tag) -> (r: Result<()>)
    ensures
        match enc_payload(enc, t@) {
            Ok(b) => r is Ok && final(out)@ == old(out)@ + b,
            Err(e) => r == Err::<(), Error>(e) && extends(old(out)@, final(out)@),
        },
        refused_up_front(t@) ==> final(out)@ == old(out)@,
    decreases t, 1int,
{
    match t {
        Tag::End => {
            assert(out@.subrange(0, out@.len() as int) =~= out@);
            Err(Error::UnexpectedEndTagPayload)
        },
        Tag::Byte(v) => {
            out.push(*v as u8);
            assert(out@ =~= old(out)@ + seq![*v as u8]);
            Ok(())
        },
        Tag::Short(v) => {
            write_i16_to(enc, out, *v);
            Ok(())
        },
        Tag::Int(v) => {
            write_i32_to(enc, out, *v);
            Ok(())
        },
        Tag::Long(v) => {
            write_i64_to(enc, out, *v);
            Ok(())
        },
        Tag::Float(v) => {
            write_u32_to(enc, out, *v);
            Ok(())
        },
        Tag::Double(v) => {
            write_u64_to(enc, out, *v);
            Ok(())
        },
        Tag::ByteArray(bytes) => {
            match write_len_i32_to(enc, out, "byte_array_length", bytes.len()) {
                Ok(()) => {},
                Err(e) => {
                    assert(out@.subrange(0, out@.len() as int) =~= out@);
                    return Err(e);
                },
            }
            let ghost mid = out@;
            append_bytes(out, bytes.as_slice());
            assert(out@ =~= old(out)@ + (enc_len_i32(enc, "byte_array_length", bytes@.len())->Ok_0
                + bytes@));
            Ok(())
        },
        Tag::String(text) => {
            let r = write_string_to(enc, out, text.as_str());
            assert(old(out)@.subrange(0, old(out)@.len() as int) =~= old(out)@);
            r
        },
        Tag::List(_) => write_list_to(enc, out, t),
        Tag::Compound(_) => write_compound_to(enc, out, t),
        Tag::IntArray(_) => write_int_array_to(enc, out, t),
        Tag::LongArray(_) => write_long_array_to(enc, out, t),
    }
}

fn write_list_to(enc: EncodingKind, out: &mut Vec<u8>, t: &Tag) -> (r: Result<()>)
    requires
        t is List,
    ensures
        match enc_payload(enc, t@) {
            Ok(b) => r is Ok && final(out)@ == old(out)@ + b,
            Err(e) => r == Err::<(), Error>(e) && extends(old(out)@, final(out)@),
        },
        refused_up_front(t@) ==> final(out)@ == old(out)@,
    decreases t, 0int,
{
    let list = match t {
        Tag::List(list) => list,
        _ => {
            return Err(Error::UnexpectedEndTagPayload);
        },
    };
        assert(t@ == TagView::List(list.element_type, tags_view(list.elements@)));
    proof {
        lemma_tags_view(list.elements@);
    }
        match list.validate() {
            Ok(()) => {},
            Err(e) => {
                assert(out@.subrange(0, out@.len() as int) =~= out@);
                return Err(e);
            },
        }
        out.push(list.element_type.id());
        match write_list_len_to(enc, out, list.elements.len()) {
            Ok(()) => {},
            Err(e) => {
                assert(out@.subrange(0, old(out)@.len() as int) =~= old(out)@);
                return Err(e);
            },
        }
        let ghost ev = tags_view(list.elements@);
        let ghost mid = out@;
        assert(mid == old(out)@ + seq![type_id(list.element_type)] + enc_list_len(
            enc,
            ev.len(),
        )->Ok_0);
        assert(mid.subrange(0, old(out)@.len() as int) =~= old(out)@);
        proof {
            lemma_tags_view(list.elements@);
        }
        let mut i: usize = 0;
        while i < list.elements.len()
            invariant
                i <= list.elements@.len(),
                ev == tags_view(list.elements@),
                ev.len() == list.elements@.len(),
                *t == Tag::List(*list),
                t@ == TagView::List(list.element_type, ev),
                list_type_error(list.element_type, ev) is None,
                enc_list_len(enc, ev.len()) is Ok,
                mid == old(out)@ + seq![type_id(list.element_type)] + enc_list_len(
                    enc,
                    ev.len(),
                )->Ok_0,
                forall|j: int| 0 <= j < ev.len() ==> #[trigger] ev[j] == tag_view(list.elements@[j]),
                extends(old(out)@, mid),
                mid.len() <= out@.len(),
                out@.subrange(0, mid.len() as int) == mid,
                enc_elems_from(enc, ev, 0) == prefix_then(
                    out@.subrange(mid.len() as int, out@.len() as int),
                    enc_elems_from(enc, ev, i as int),
                ),
            decreases list.elements@.len() - i,
        {
            let ghost before = out@;
            assert(decreases_to!(*t => list.elements@[i as int]));
            match write_payload_to(enc, out, &list.elements[i]) {
                Ok(()) => {},
                Err(e) => {
                    assert(extends(old(out)@, out@)) by {
                        assert(out@.subrange(0, old(out)@.len() as int) =~= before.subrange(
                            0,
                            old(out)@.len() as int,
                        ));
                        assert(before.subrange(0, old(out)@.len() as int) =~= mid.subrange(
                            0,
                            old(out)@.len() as int,
                        ));
                    }
                    return Err(e);
                },
            }
            proof {
                let acc = before.subrange(mid.len() as int, before.len() as int);
                let b = enc_payload(enc, ev[i as int])->Ok_0;
                assert(out@ == before + b);
                assert(out@.subrange(mid.len() as int, out@.len() as int) =~= acc + b);
                assert(out@.subrange(0, mid.len() as int) =~= mid);
                match enc_elems_from(enc, ev, i + 1) {
                    Ok(rest) => {
                        assert(acc + (b + rest) =~= (acc + b) + rest);
                    },
                    Err(_) => {},
                }
            }
            i = i + 1;
        }
        proof {
            assert(out@ =~= mid + out@.subrange(mid.len() as int, out@.len() as int));
            assert(enc_elems_from(enc, ev, i as int) == Ok::<Seq<u8>, Error>(Seq::empty()));
            assert(out@.subrange(mid.len() as int, out@.len() as int) + Seq::<u8>::empty()
                =~= out@.subrange(mid.len() as int, out@.len() as int));
        }
        Ok(())
    }

fn write_compound_to(enc: EncodingKind, out: &mut Vec<u8>, t: &Tag) -> (r: Result<()>)
    requires
        t is Compound,
    ensures
        match enc_payload(enc, t@) {
            Ok(b) => r is Ok && final(out)@ == old(out)@ + b,
            Err(e) => r == Err::<(), Error>(e) && extends(old(out)@, final(out)@),
        },
        refused_up_front(t@) ==> final(out)@ == old(out)@,
    decreases t, 0int,
{
    let c = match t {
        Tag::Compound(c) => c,
        _ => {
            return Err(Error::UnexpectedEndTagPayload);
        },
    };
        proof {
            lemma_compound_view(*c);
            lemma_entries_view(c.entries@);
        }
        let ghost ev = c@;
        let ghost mid = out@;
        let mut k: usize = 0;
        while k < c.entries.len()
            invariant
                k <= c.entries@.len(),
                ev == c@,
                ev.len() == c.entries@.len(),
                out@ == old(out)@,
                *t == Tag::Compound(*c),
                t@ == TagView::Compound(ev),
                forall|j: int|
                    0 <= j < ev.len() ==> #[trigger] ev[j] == (
                        c.entries@[j].key@,
                        tag_view(c.entries@[j].value),
                    ),
                forall|j: int| 0 <= j < k ==> !(#[trigger] ev[j].1 is End),
            decreases c.entries@.len() - k,
        {
            if let Tag::End = c.entries[k].value {
                assert(ev[k as int].1 is End);
                assert(has_end_member(ev));
                assert(out@.subrange(0, out@.len() as int) =~= out@);
                return Err(Error::UnexpectedEndTagPayload);
            }
            k = k + 1;
        }
        assert(!has_end_member(ev));
        let mut i: usize = 0;
        while i < c.entries.len()
            invariant
                i <= c.entries@.len(),
                ev == c@,
                ev.len() == c.entries@.len(),
                *t == Tag::Compound(*c),
                t@ == TagView::Compound(ev),
                !has_end_member(ev),
                forall|j: int|
                    0 <= j < ev.len() ==> #[trigger] ev[j] == (
                        c.entries@[j].key@,
                        tag_view(c.entries@[j].value),
                    ),
                mid == old(out)@,
                mid.len() <= out@.len(),
                out@.subrange(0, mid.len() as int) == mid,
                enc_entries_from(enc, ev, 0) == prefix_then(
                    out@.subrange(mid.len() as int, out@.len() as int),
                    enc_entries_from(enc, ev, i as int),
                ),
            decreases c.entries@.len() - i,
        {
            let ghost before = out@;
            let entry = &c.entries[i];
            assert(ev[i as int] == (entry.key@, entry.value@));
            assert(decreases_to!(*t => entry.value));
            assert(!(ev[i as int].1 is End));
            out.push(entry.value.tag_type().id());
            let ghost after_id = out@;
            match write_string_to(enc, out, entry.key.as_str()) {
                Ok(()) => {},
                Err(e) => {
                    assert(out@.subrange(0, mid.len() as int) =~= mid);
                    return Err(e);
                },
            }
            let ghost after_name = out@;
            match write_payload_to(enc, out, &entry.value) {
                Ok(()) => {},
                Err(e) => {
                    assert(out@.subrange(0, mid.len() as int) =~= after_name.subrange(
                        0,
                        mid.len() as int,
                    ));
                    assert(after_name.subrange(0, mid.len() as int) =~= mid);
                    return Err(e);
                },
            }
            proof {
                let acc = before.subrange(mid.len() as int, before.len() as int);
                let kb = enc_string(enc, ev[i as int].0)->Ok_0;
                let vb = enc_payload(enc, ev[i as int].1)->Ok_0;
                let one = seq![type_id(view_type(ev[i as int].1))] + kb + vb;
                assert(out@ =~= before + one);
                assert(out@.subrange(mid.len() as int, out@.len() as int) =~= acc + one);
                assert(out@.subrange(0, mid.len() as int) =~= mid);
                match enc_entries_from(enc, ev, i + 1) {
                    Ok(rest) => {
                        assert(acc + (one + rest) =~= (acc + one) + rest);
                    },
                    Err(_) => {},
                }
            }
            i = i + 1;
        }
        let ghost body = out@.subrange(mid.len() as int, out@.len() as int);
        assert(enc_entries_from(enc, ev, i as int) == Ok::<Seq<u8>, Error>(Seq::empty()));
        assert(body + Seq::<u8>::empty() =~= body);
        out.push(0u8);
        proof {
            assert(out@ =~= mid + (body + seq![0u8]));
        }
        Ok(())
    }

fn write_int_array_to(enc: EncodingKind, out: &mut Vec<u8>, t: &Tag) -> (r: Result<()>)
    requires
        t is IntArray,
    ensures
        match enc_payload(enc, t@) {
            Ok(b) => r is Ok && final(out)@ == old(out)@ + b,
            Err(e) => r == Err::<(), Error>(e) && extends(old(out)@, final(out)@),
        },
{
    let values = match t {
        Tag::IntArray(values) => values,
        _ => {
            return Err(Error::UnexpectedEndTagPayload);
        },
    };
        match write_len_i32_to(enc, out, "int_array_length", values.len()) {
            Ok(()) => {},
            Err(e) => {
                assert(out@.subrange(0, out@.len() as int) =~= out@);
                return Err(e);
            },
        }
        let ghost mid = out@;
        let mut i: usize = 0;
        while i < values.len()
            invariant
                i <= values@.len(),
                out@ == mid + enc_i32s(enc, values@.take(i as int)),
            decreases values@.len() - i,
        {
            write_i32_to(enc, out, values[i]);
            proof {
                assert(values@.take(i + 1).drop_last() =~= values@.take(i as int));
            }
            i = i + 1;
        }
        assert(values@.take(i as int) =~= values@);
        Ok(())
    }

fn write_long_array_to(enc: EncodingKind, out: &mut Vec<u8>, t: &Tag) -> (r: Result<()>)
    requires
        t is LongArray,
    ensures
        match enc_payload(enc, t@) {
            Ok(b) => r is Ok && final(out)@ == old(out)@ + b,
            Err(e) => r == Err::<(), Error>(e) && extends(old(out)@, final(out)@),
        },
{
    let values = match t {
        Tag::LongArray(values) => values,
        _ => {
            return Err(Error::UnexpectedEndTagPayload);
        },
    };
        match write_len_i32_to(enc, out, "long_array_length", values.len()) {
            Ok(()) => {},
            Err(e) => {
                assert(out@.subrange(0, out@.len() as int) =~= out@);
                return Err(e);
            },
        }
        let ghost mid = out@;
        let mut i: usize = 0;
        while i < values.len()
            invariant
                i <= values@.len(),
                out@ == mid + enc_i64s(enc, values@.take(i as int)),
            decreases values@.len() - i,
        {
            write_i64_to(enc, out, values[i]);
            proof {
                assert(values@.take(i + 1).drop_last() =~= values@.take(i as int));
            }
            i = i + 1;
        }
        assert(values@.take(i as int) =~= values@);
        Ok(())
    }


/// The readable window of the input under a configuration.
fn window_slice(s: &[u8], cfg: NbtReadConfig) -> (r: &[u8])
    ensures
        r@ == window(s@, cfg),
{
    if s.len() <= cfg.limits.max_read_bytes {
        assert(s@.subrange(0, s@.len() as int) =~= s@);
        &s[0..s.len()]
    } else {
        &s[0..cfg.limits.max_read_bytes]
    }
}

/// Reads one headless payload of type `ty` from the start of `s`.
pub(crate) fn payload_at(enc: EncodingKind, cfg: NbtReadConfig, s: &[u8], ty: TagType) -> (r: Step<Tag>)
    ensures
        step_view(r) == sp_read_payload(enc, cfg, s@, ty),
        r matches Ok((_, q)) ==> q <= s@.len(),
        r matches Err((_, c)) ==> c <= s@.len(),
{
    let w = window_slice(s, cfg);
    match parse_payload(enc, cfg, w, 0, ty, 1) {
        Ok((t, n)) => Ok((t, n)),
        Err((e, c)) => Err((e.with_context("read_payload_with_config", c, Some("payload")), c)),
    }
}

/// Reads one headless payload of type `tag_type` under `config`.
pub fn read_payload_with_config<E: Encoding>(
    reader: &mut ByteReader,
    tag_type: TagType,
    config: &NbtReadConfig,
) -> (r: Result<Tag>)
    ensures
        reads_as(
            *old(reader),
            *final(reader),
            r,
            sp_read_payload(E::spec_kind(), *config, old(reader).rest(), tag_type),
        ),
{
    let res = payload_at(E::kind(), *config, reader.remaining_slice(), tag_type);
    reader.settle(res)
}

/// Reads one headless payload under strict mode and the given limits.
pub fn read_payload_with_limits<E: Encoding>(
    reader: &mut ByteReader,
    tag_type: TagType,
    limits: &NbtLimits,
) -> (r: Result<Tag>)
    ensures
        reads_as(
            *old(reader),
            *final(reader),
            r,
            sp_read_payload(
                E::spec_kind(),
                NbtReadConfig { limits: *limits, parse_mode: ParseMode::Strict },
                old(reader).rest(),
                tag_type,
            ),
        ),
{
    read_payload_with_config::<E>(reader, tag_type, &NbtReadConfig::strict(*limits))
}

/// Reads one headless payload under the default configuration.
pub fn read_payload<E: Encoding>(reader: &mut ByteReader, tag_type: TagType) -> (r: Result<Tag>)
    ensures
        reads_as(
            *old(reader),
            *final(reader),
            r,
            sp_read_payload(E::spec_kind(), default_config(), old(reader).rest(), tag_type),
        ),
{
    read_payload_with_config::<E>(reader, tag_type, &NbtReadConfig::default())
}

/// Appends the payload of `tag` (no type id, no name). `End`, a compound with an
/// `End` entry and a list of mismatched elements are refused before any byte is
/// written; on another failure, what was appended before it stays.
pub fn write_payload<E: Encoding>(writer: &mut Vec<u8>, tag: &Tag) -> (r: Result<()>)
    ensures
        match enc_payload(E::spec_kind(), tag@) {
            Ok(b) => r is Ok && final(writer)@ == old(writer)@ + b,
            Err(e) => r == Err::<(), Error>(e) && extends(old(writer)@, final(writer)@),
        },
        refused_up_front(tag@) ==> final(writer)@ == old(writer)@,
{
    write_payload_to(E::kind(), writer, tag)
}

} // verus!
