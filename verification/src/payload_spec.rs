use crate::config::{NbtReadConfig, ParseMode};
use crate::encoding::{
    enc_i16, enc_i32, enc_i64, enc_list_len, enc_string_len, eof_at, fixed_bytes, sp_i16, sp_i32,
    sp_i64, sp_list_len, sp_string_len, sp_take, sp_u32, sp_u64, EncodingKind, Step,
};
use crate::error::{wrap, Error};
use crate::tag::{decode_type_id, entries_insert, list_type_error, type_id, view_type, TagType, TagView};
use vstd::prelude::*;
use vstd::utf8::{decode_utf8, encode_utf8, valid_utf8};

verus! {

broadcast use vstd::seq::group_seq_axioms;

// ---------------------------------------------------------------------------
// Writing
// ---------------------------------------------------------------------------

/// The bytes of a string: its length, then its UTF-8 bytes.
pub open spec fn enc_string(enc: EncodingKind, s: Seq<char>) -> Result<Seq<u8>, Error> {
    match enc_string_len(enc, encode_utf8(s).len()) {
        Ok(h) => Ok(h + encode_utf8(s)),
        Err(e) => Err(e),
    }
}

/// The bytes of an array length: a 32-bit integer in the layout, at most `i32::MAX`.
pub open spec fn enc_len_i32(enc: EncodingKind, field: &'static str, len: nat) -> Result<Seq<u8>, Error> {
    if len > 0x7fff_ffff {
        Err(Error::LengthOverflow { field, max: 0x7fff_ffff, actual: len as usize })
    } else {
        Ok(enc_i32(enc, len as i32))
    }
}

/// The bytes of a sequence of `i32`s, one after another.
pub open spec fn enc_i32s(enc: EncodingKind, xs: Seq<i32>) -> Seq<u8>
    decreases xs.len(),
{
    if xs.len() == 0 {
        Seq::empty()
    } else {
        enc_i32s(enc, xs.drop_last()) + enc_i32(enc, xs.last())
    }
}

/// The bytes of a sequence of `i64`s, one after another.
pub open spec fn enc_i64s(enc: EncodingKind, xs: Seq<i64>) -> Seq<u8>
    decreases xs.len(),
{
    if xs.len() == 0 {
        Seq::empty()
    } else {
        enc_i64s(enc, xs.drop_last()) + enc_i64(enc, xs.last())
    }
}

/// Some entry of the compound holds `End`.
pub open spec fn has_end_member(es: Seq<(Seq<char>, TagView)>) -> bool {
    exists|i: int| 0 <= i < es.len() && (#[trigger] es[i]).1 is End
}

/// A value that a writer refuses before it writes any byte: `End` itself, a
/// compound with an `End` entry, or a list whose elements do not fit its type.
pub open spec fn refused_up_front(v: TagView) -> bool {
    match v {
        TagView::End => true,
        TagView::Compound(es) => has_end_member(es),
        TagView::List(t, es) => list_type_error(t, es) is Some,
        _ => false,
    }
}

/// The bytes of a value without its type id and name, or the first error a writer meets.
pub open spec fn enc_payload(enc: EncodingKind, v: TagView) -> Result<Seq<u8>, Error>
    decreases v, 0int,
{
    match v {
        TagView::End => Err(Error::UnexpectedEndTagPayload),
        TagView::Byte(b) => Ok(seq![b as u8]),
        TagView::Short(x) => Ok(enc_i16(enc, x)),
        TagView::Int(x) => Ok(enc_i32(enc, x)),
        TagView::Long(x) => Ok(enc_i64(enc, x)),
        TagView::Float(bits) => Ok(fixed_bytes(enc, bits as nat, 4)),
        TagView::Double(bits) => Ok(fixed_bytes(enc, bits as nat, 8)),
        TagView::ByteArray(b) => match enc_len_i32(enc, "byte_array_length", b.len()) {
            Ok(h) => Ok(h + b),
            Err(e) => Err(e),
        },
        TagView::String(s) => enc_string(enc, s),
        TagView::List(t, es) => match list_type_error(t, es) {
            Some(e) => Err(e),
            None => match enc_list_len(enc, es.len()) {
                Err(e) => Err(e),
                Ok(h) => match enc_elems_from(enc, es, 0) {
                    Ok(b) => Ok(seq![type_id(t)] + h + b),
                    Err(e) => Err(e),
                },
            },
        },
        TagView::Compound(es) => if has_end_member(es) {
            Err(Error::UnexpectedEndTagPayload)
        } else {
            match enc_entries_from(enc, es, 0) {
                Ok(b) => Ok(b + seq![0u8]),
                Err(e) => Err(e),
            }
        },
        TagView::IntArray(xs) => match enc_len_i32(enc, "int_array_length", xs.len()) {
            Ok(h) => Ok(h + enc_i32s(enc, xs)),
            Err(e) => Err(e),
        },
        TagView::LongArray(xs) => match enc_len_i32(enc, "long_array_length", xs.len()) {
            Ok(h) => Ok(h + enc_i64s(enc, xs)),
            Err(e) => Err(e),
        },
    }
}

/// The payloads of list elements from index `i` on.
pub open spec fn enc_elems_from(enc: EncodingKind, es: Seq<TagView>, i: int) -> Result<Seq<u8>, Error>
    decreases es, es.len() - i,
{
    if i < 0 || i >= es.len() {
        Ok(Seq::empty())
    } else {
        match enc_payload(enc, es[i]) {
            Err(e) => Err(e),
            Ok(b) => match enc_elems_from(enc, es, i + 1) {
                Ok(rest) => Ok(b + rest),
                Err(e) => Err(e),
            },
        }
    }
}

/// The named entries of a compound from index `i` on: type id, name, payload for each.
pub open spec fn enc_entries_from(enc: EncodingKind, es: Seq<(Seq<char>, TagView)>, i: int) -> Result<Seq<u8>, Error>
    decreases es, es.len() - i,
{
    if i < 0 || i >= es.len() {
        Ok(Seq::empty())
    } else if es[i].1 is End {
        Err(Error::UnexpectedEndTagPayload)
    } else {
        match enc_string(enc, es[i].0) {
            Err(e) => Err(e),
            Ok(kb) => match enc_payload(enc, es[i].1) {
                Err(e) => Err(e),
                Ok(vb) => match enc_entries_from(enc, es, i + 1) {
                    Ok(rest) => Ok(seq![type_id(view_type(es[i].1))] + kb + vb + rest),
                    Err(e) => Err(e),
                },
            },
        }
    }
}

/// `acc` followed by the bytes of `r`, or the error of `r`.
pub open spec fn prefix_then(acc: Seq<u8>, r: Result<Seq<u8>, Error>) -> Result<Seq<u8>, Error> {
    match r {
        Ok(b) => Ok(acc + b),
        Err(e) => Err(e),
    }
}

// ---------------------------------------------------------------------------
// Reading
// ---------------------------------------------------------------------------

/// Adds a layer of context to an error.
pub open spec fn ctx<T>(r: Step<T>, op: &'static str, off: usize, field: &'static str) -> Step<T> {
    match r {
        Ok(x) => Ok(x),
        Err((e, c)) => Err((wrap(e, op, off, Some(field)), c)),
    }
}

/// A layer of context whose offset is the position where reading stopped.
pub open spec fn ctx_at_stop<T>(r: Step<T>, op: &'static str, field: &'static str) -> Step<T> {
    match r {
        Ok(x) => Ok(x),
        Err((e, c)) => Err((wrap(e, op, c, Some(field)), c)),
    }
}

/// Reading a type id byte and decoding it.
pub open spec fn sp_tag_type(s: Seq<u8>, p: usize) -> Step<TagType> {
    match ctx(sp_take(s, p, 1), "read_exact", p, "tag_type_id") {
        Err(e) => Err(e),
        Ok((b, q)) => match decode_type_id(b[0]) {
            Ok(t) => Ok((t, q)),
            Err(e) => Err((wrap(e, "decode_tag_type", p, Some("tag_type_id")), q)),
        },
    }
}

/// Size check against a configured limit.
pub open spec fn sp_limit(field: &'static str, actual: usize, max: usize, p: usize) -> Option<(Error, usize)> {
    if actual > max {
        Some((wrap(Error::SizeExceeded { field, max, actual }, "validate_size", p, Some(field)), p))
    } else {
        None
    }
}

/// Check that `size` more bytes stay within the read budget `budget` at position `p`.
pub open spec fn sp_budget(field: &'static str, size: usize, budget: usize, p: usize) -> Option<(Error, usize)> {
    if size > budget - p {
        Some(
            (
                wrap(
                    Error::SizeExceeded { field, max: (budget - p) as usize, actual: size },
                    "ensure_can_read",
                    p,
                    Some(field),
                ),
                p,
            ),
        )
    } else {
        None
    }
}

/// Reading a length-prefixed UTF-8 string within the limits.
pub open spec fn sp_string(enc: EncodingKind, cfg: NbtReadConfig, s: Seq<u8>, p: usize) -> Step<Seq<char>> {
    match ctx(sp_string_len(enc, s, p), "read_string_len", p, "string_length") {
        Err(e) => Err(e),
        Ok((len, q)) => match sp_limit("string_length", len, cfg.limits.max_string_len, q) {
            Some(e) => Err(e),
            None => match sp_budget("string_bytes", len, cfg.limits.max_read_bytes, q) {
                Some(e) => Err(e),
                None => match ctx(sp_take(s, q, len), "read_exact", q, "string_bytes") {
                    Err(e) => Err(e),
                    Ok((b, q2)) => if valid_utf8(b) {
                        Ok((decode_utf8(b), q2))
                    } else {
                        Err(
                            (
                                wrap(
                                    Error::InvalidUtf8 { field: "string_payload" },
                                    "decode_utf8",
                                    q,
                                    Some("string_payload"),
                                ),
                                q2,
                            ),
                        )
                    },
                },
            },
        },
    }
}

/// Reading an array length: a 32-bit integer in the layout that must not be negative.
pub open spec fn sp_len_i32(enc: EncodingKind, s: Seq<u8>, p: usize, field: &'static str) -> Step<usize> {
    match ctx(sp_i32(enc, s, p), "read_i32", p, field) {
        Err(e) => Err(e),
        Ok((v, q)) => if v < 0 {
            Err(
                (
                    wrap(Error::NegativeLength { field, value: v }, "validate_non_negative_length", p, Some(field)),
                    q,
                ),
            )
        } else {
            Ok((v as usize, q))
        },
    }
}

/// Reading the `i32`s from the `i`-th to the `n`-th after `acc`.
pub open spec fn sp_i32s_from(enc: EncodingKind, s: Seq<u8>, p: usize, i: nat, n: nat, acc: Seq<i32>) -> Step<Seq<i32>>
    decreases n - i,
{
    if i >= n {
        Ok((acc, p))
    } else {
        match ctx(sp_i32(enc, s, p), "read_i32", p, "int_array_value") {
            Err(e) => Err(e),
            Ok((v, q)) => sp_i32s_from(enc, s, q, i + 1, n, acc.push(v)),
        }
    }
}

/// Reading the `i64`s from the `i`-th to the `n`-th after `acc`.
pub open spec fn sp_i64s_from(enc: EncodingKind, s: Seq<u8>, p: usize, i: nat, n: nat, acc: Seq<i64>) -> Step<Seq<i64>>
    decreases n - i,
{
    if i >= n {
        Ok((acc, p))
    } else {
        match ctx(sp_i64(enc, s, p), "read_i64", p, "long_array_value") {
            Err(e) => Err(e),
            Ok((v, q)) => sp_i64s_from(enc, s, q, i + 1, n, acc.push(v)),
        }
    }
}


/// The number of bytes of `len` elements of `size` bytes, if it fits a `usize`.
pub open spec fn sp_array_bytes(len: usize, size: usize, field: &'static str, q: usize) -> Step<usize> {
    if len * size > usize::MAX {
        Err((Error::LengthOverflow { field, max: usize::MAX, actual: len }, q))
    } else {
        Ok(((len * size) as usize, q))
    }
}

/// Reading an int array payload at `p`.
pub open spec fn sp_int_array(enc: EncodingKind, cfg: NbtReadConfig, s: Seq<u8>, p: usize) -> Step<TagView> {
    match sp_len_i32(enc, s, p, "int_array_length") {
        Err(e) => Err(e),
        Ok((len, q)) => match sp_limit("int_array_length", len, cfg.limits.max_array_len, q) {
            Some(e) => Err(e),
            None => match sp_array_bytes(len, 4, "int_array_bytes", q) {
                Err(e) => Err(e),
                Ok((nbytes, _)) => match sp_budget("int_array_bytes", nbytes, cfg.limits.max_read_bytes, q) {
                    Some(e) => Err(e),
                    None => match sp_i32s_from(enc, s, q, 0, len as nat, Seq::empty()) {
                        Ok((xs, q2)) => Ok((TagView::IntArray(xs), q2)),
                        Err(e) => Err(e),
                    },
                },
            },
        },
    }
}

/// Reading a long array payload at `p`.
pub open spec fn sp_long_array(enc: EncodingKind, cfg: NbtReadConfig, s: Seq<u8>, p: usize) -> Step<TagView> {
    match sp_len_i32(enc, s, p, "long_array_length") {
        Err(e) => Err(e),
        Ok((len, q)) => match sp_limit("long_array_length", len, cfg.limits.max_array_len, q) {
            Some(e) => Err(e),
            None => match sp_array_bytes(len, 8, "long_array_bytes", q) {
                Err(e) => Err(e),
                Ok((nbytes, _)) => match sp_budget("long_array_bytes", nbytes, cfg.limits.max_read_bytes, q) {
                    Some(e) => Err(e),
                    None => match sp_i64s_from(enc, s, q, 0, len as nat, Seq::empty()) {
                        Ok((xs, q2)) => Ok((TagView::LongArray(xs), q2)),
                        Err(e) => Err(e),
                    },
                },
            },
        },
    }
}

/// Reading a byte array payload at `p`.
pub open spec fn sp_byte_array(cfg: NbtReadConfig, enc: EncodingKind, s: Seq<u8>, p: usize) -> Step<TagView> {
    match sp_len_i32(enc, s, p, "byte_array_length") {
        Err(e) => Err(e),
        Ok((len, q)) => match sp_limit("byte_array_length", len, cfg.limits.max_array_len, q) {
            Some(e) => Err(e),
            None => match sp_budget("byte_array_bytes", len, cfg.limits.max_read_bytes, q) {
                Some(e) => Err(e),
                None => match ctx(sp_take(s, q, len), "read_exact", q, "byte_array_bytes") {
                    Ok((b, q2)) => Ok((TagView::ByteArray(b), q2)),
                    Err(e) => Err(e),
                },
            },
        },
    }
}

/// Reading the payload of a value of type `ty` at nesting depth `depth`.
pub open spec fn sp_payload(
    enc: EncodingKind,
    cfg: NbtReadConfig,
    s: Seq<u8>,
    p: usize,
    ty: TagType,
    depth: nat,
) -> Step<TagView>
    decreases cfg.limits.max_depth + 1 - depth, 3int, 0int,
    when depth <= cfg.limits.max_depth + 1
{
    if depth > cfg.limits.max_depth {
        Err(
            (
                wrap(
                    Error::DepthExceeded { depth: depth as usize, max_depth: cfg.limits.max_depth },
                    "check_depth",
                    p,
                    Some("max_depth"),
                ),
                p,
            ),
        )
    } else {
        match ty {
            TagType::End => Err((Error::UnexpectedEndTagPayload, p)),
            TagType::Byte => match ctx(sp_take(s, p, 1), "read_exact", p, "i8_value") {
                Ok((b, q)) => Ok((TagView::Byte(b[0] as i8), q)),
                Err(e) => Err(e),
            },
            TagType::Short => match ctx(sp_i16(enc, s, p), "read_i16", p, "short_payload") {
                Ok((v, q)) => Ok((TagView::Short(v), q)),
                Err(e) => Err(e),
            },
            TagType::Int => match ctx(sp_i32(enc, s, p), "read_i32", p, "int_payload") {
                Ok((v, q)) => Ok((TagView::Int(v), q)),
                Err(e) => Err(e),
            },
            TagType::Long => match ctx(sp_i64(enc, s, p), "read_i64", p, "long_payload") {
                Ok((v, q)) => Ok((TagView::Long(v), q)),
                Err(e) => Err(e),
            },
            TagType::Float => match ctx(sp_u32(enc, s, p), "read_f32", p, "float_payload") {
                Ok((v, q)) => Ok((TagView::Float(v), q)),
                Err(e) => Err(e),
            },
            TagType::Double => match ctx(sp_u64(enc, s, p), "read_f64", p, "double_payload") {
                Ok((v, q)) => Ok((TagView::Double(v), q)),
                Err(e) => Err(e),
            },
            TagType::ByteArray => sp_byte_array(cfg, enc, s, p),
            TagType::String => match sp_string(enc, cfg, s, p) {
                Ok((v, q)) => Ok((TagView::String(v), q)),
                Err(e) => Err(e),
            },
            TagType::List => sp_list(enc, cfg, s, p, depth),
            TagType::Compound => sp_compound_from(enc, cfg, s, p, depth, 0, Seq::empty()),
            TagType::IntArray => sp_int_array(enc, cfg, s, p),
            TagType::LongArray => sp_long_array(enc, cfg, s, p),
        }
    }
}

/// Reading a list payload: element type, length, then the elements one level deeper.
pub open spec fn sp_list(enc: EncodingKind, cfg: NbtReadConfig, s: Seq<u8>, p: usize, depth: nat) -> Step<TagView>
    decreases cfg.limits.max_depth + 1 - depth, 2int, 0int,
    when depth <= cfg.limits.max_depth
{
    match sp_tag_type(s, p) {
        Err(e) => Err(e),
        Ok((et, p1)) => match ctx(sp_list_len(enc, s, p1), "read_list_len", p1, "list_length") {
            Err(e) => Err(e),
            Ok((len, q)) => match sp_limit("list_length", len, cfg.limits.max_list_len, q) {
                Some(e) => Err(e),
                None => if et == TagType::End && len > 0 && cfg.parse_mode == ParseMode::Strict {
                    Err(
                        (
                            wrap(
                                Error::InvalidListHeader { element_type_id: type_id(et), length: len },
                                "validate_list_header",
                                q,
                                Some("list_length"),
                            ),
                            q,
                        ),
                    )
                } else {
                    let n: usize = if et == TagType::End { 0 } else { len };
                    sp_elems_from(enc, cfg, s, q, et, depth, 0, n as nat, Seq::empty())
                },
            },
        },
    }
}

/// Reading list elements `i..n` of type `et`, `acc` holding those read so far.
pub open spec fn sp_elems_from(
    enc: EncodingKind,
    cfg: NbtReadConfig,
    s: Seq<u8>,
    p: usize,
    et: TagType,
    depth: nat,
    i: nat,
    n: nat,
    acc: Seq<TagView>,
) -> Step<TagView>
    decreases cfg.limits.max_depth + 1 - depth, 1int, n - i,
    when depth <= cfg.limits.max_depth
{
    if i >= n {
        Ok((TagView::List(et, acc), p))
    } else {
        match sp_payload(enc, cfg, s, p, et, depth + 1) {
            Err(e) => Err(e),
            Ok((v, q)) => sp_elems_from(enc, cfg, s, q, et, depth, i + 1, n, acc.push(v)),
        }
    }
}

/// Reading compound entries until the end marker; `count` entries were read so far
/// and `acc` holds them, a repeated name replacing the earlier value in place.
pub open spec fn sp_compound_from(
    enc: EncodingKind,
    cfg: NbtReadConfig,
    s: Seq<u8>,
    p: usize,
    depth: nat,
    count: usize,
    acc: Seq<(Seq<char>, TagView)>,
) -> Step<TagView>
    decreases cfg.limits.max_depth + 1 - depth, 1int, cfg.limits.max_compound_entries - count,
    when depth <= cfg.limits.max_depth && count <= cfg.limits.max_compound_entries
{
    match sp_tag_type(s, p) {
        Err(e) => Err(e),
        Ok((t, q)) => if t == TagType::End {
            Ok((TagView::Compound(acc), q))
        } else if count + 1 > cfg.limits.max_compound_entries {
            Err(
                (
                    wrap(
                        Error::SizeExceeded {
                            field: "compound_entries",
                            max: cfg.limits.max_compound_entries,
                            actual: (count + 1) as usize,
                        },
                        "validate_size",
                        q,
                        Some("compound_entries"),
                    ),
                    q,
                ),
            )
        } else {
            match sp_string(enc, cfg, s, q) {
                Err(e) => Err(e),
                Ok((name, q2)) => match sp_payload(enc, cfg, s, q2, t, depth + 1) {
                    Err(e) => Err(e),
                    Ok((v, q3)) => sp_compound_from(
                        enc,
                        cfg,
                        s,
                        q3,
                        depth,
                        (count + 1) as usize,
                        entries_insert(acc, name, v),
                    ),
                },
            }
        },
    }
}

/// The window a decoder reads from: at most `max_read_bytes` bytes of the input.
pub open spec fn window(input: Seq<u8>, cfg: NbtReadConfig) -> Seq<u8> {
    if input.len() <= cfg.limits.max_read_bytes {
        input
    } else {
        input.subrange(0, cfg.limits.max_read_bytes as int)
    }
}

/// Reading one headless payload from the start of `input`, within the read budget.
pub open spec fn sp_read_payload(enc: EncodingKind, cfg: NbtReadConfig, input: Seq<u8>, ty: TagType) -> Step<TagView> {
    ctx_at_stop(sp_payload(enc, cfg, window(input, cfg), 0, ty, 1), "read_payload_with_config", "payload")
}

} // verus!
